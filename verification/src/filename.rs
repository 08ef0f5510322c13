//! Windows-safe filename components: sanitization of untrusted names,
//! UTF-16 bounded truncation, numbered collision candidates and managed
//! partial-file names.
use vstd::prelude::*;
use crate::text::{push_char, chars_of, string_from_chars, decimal, push_decimal};

verus! {

/// Maximum UTF-16 code units in one produced filename component.
pub const MAX_FILENAME_UTF16_UNITS: usize = 180;

/// Unicode control characters (general category Cc).
pub open spec fn is_control_char(c: char) -> bool {
    (c as u32) <= 0x1f || (0x7f <= (c as u32) && (c as u32) <= 0x9f)
}

/// Characters Win32 rejects inside a path component.
pub open spec fn is_windows_invalid_char(c: char) -> bool {
    c == '<' || c == '>' || c == ':' || c == '"' || c == '/' || c == '\\' || c == '|' || c == '?' || c == '*'
}

/// Characters replaced by an underscore.
pub open spec fn is_replaced_char(c: char) -> bool {
    is_control_char(c) || is_windows_invalid_char(c)
}

/// UTF-16 code units of one character.
pub open spec fn utf16_len(c: char) -> int {
    if (c as u32) < 0x10000 { 1 } else { 2 }
}

/// UTF-16 code units of a character sequence.
pub open spec fn utf16_units(s: Seq<char>) -> int
    decreases s.len(),
{
    if s.len() == 0 { 0 } else { utf16_units(s.drop_last()) + utf16_len(s.last()) }
}

/// The longest prefix whose UTF-16 length fits in `max` units.
pub open spec fn truncate16(s: Seq<char>, max: int) -> Seq<char>
    decreases s.len(),
{
    if s.len() == 0 || utf16_len(s[0]) > max {
        Seq::empty()
    } else {
        seq![s[0]] + truncate16(s.drop_first(), max - utf16_len(s[0]))
    }
}

/// Removes trailing characters that are spaces or (when `dots`) dots.
pub open spec fn trim_end(s: Seq<char>, dots: bool) -> Seq<char>
    decreases s.len(),
{
    if s.len() > 0 && (s.last() == ' ' || (dots && s.last() == '.')) {
        trim_end(s.drop_last(), dots)
    } else {
        s
    }
}

/// Removes leading spaces.
pub open spec fn trim_start_spaces(s: Seq<char>) -> Seq<char>
    decreases s.len(),
{
    if s.len() > 0 && s[0] == ' ' { trim_start_spaces(s.drop_first()) } else { s }
}

/// The first pass: replace unsafe characters (collapsing runs of
/// replacements into one underscore) while the UTF-16 budget lasts.
pub open spec fn collect_safe(input: Seq<char>, out: Seq<char>, units: int, previous_replaced: bool) -> Seq<char>
    decreases input.len(),
{
    if input.len() == 0 {
        out
    } else {
        let c = input[0];
        let replaced = is_replaced_char(c);
        let candidate = if replaced { '_' } else { c };
        if replaced && previous_replaced {
            collect_safe(input.drop_first(), out, units, previous_replaced)
        } else if units + utf16_len(candidate) > MAX_FILENAME_UTF16_UNITS {
            out
        } else {
            collect_safe(input.drop_first(), out.push(candidate), units + utf16_len(candidate), replaced)
        }
    }
}

/// The fallback name for an empty or dot-only component.
pub open spec fn download_name() -> Seq<char> {
    seq!['d', 'o', 'w', 'n', 'l', 'o', 'a', 'd']
}

/// ASCII uppercase of a character.
pub open spec fn ascii_upper(c: char) -> char {
    if 'a' <= c && c <= 'z' { ((c as u32) - 32) as char } else { c }
}

/// The part of a name before its first dot.
pub open spec fn before_first_dot(s: Seq<char>) -> Seq<char>
    decreases s.len(),
{
    if s.len() == 0 || s[0] == '.' { Seq::empty() } else { seq![s[0]] + before_first_dot(s.drop_first()) }
}

/// The uppercased device-name stem of a filename.
pub open spec fn reserved_stem(s: Seq<char>) -> Seq<char> {
    trim_end(before_first_dot(s), true).map_values(|c: char| ascii_upper(c))
}

/// Windows reserved device names, matched on the stem.
pub open spec fn is_reserved_stem(stem: Seq<char>) -> bool {
    ||| stem == seq!['C', 'O', 'N']
    ||| stem == seq!['P', 'R', 'N']
    ||| stem == seq!['A', 'U', 'X']
    ||| stem == seq!['N', 'U', 'L']
    ||| stem == seq!['C', 'L', 'O', 'C', 'K', '$']
    ||| stem == seq!['C', 'O', 'N', 'I', 'N', '$']
    ||| stem == seq!['C', 'O', 'N', 'O', 'U', 'T', '$']
    ||| (stem.len() == 4
        && (stem.take(3) == seq!['C', 'O', 'M'] || stem.take(3) == seq!['L', 'P', 'T'])
        && (('1' <= stem[3] && stem[3] <= '9') || stem[3] == '\u{b9}' || stem[3] == '\u{b2}' || stem[3] == '\u{b3}'))
}

/// Whether a filename names a Windows device.
pub open spec fn is_reserved_name(s: Seq<char>) -> bool {
    is_reserved_stem(reserved_stem(s))
}

/// The full sanitization of untrusted filename text.
pub open spec fn sanitized(input: Seq<char>) -> Seq<char> {
    let collected = collect_safe(input, Seq::empty(), 0, false);
    let trimmed = trim_end(trim_end(trim_start_spaces(collected), false), true);
    let named = if trimmed.len() == 0 || trimmed == seq!['.'] || trimmed == seq!['.', '.'] { download_name() } else { trimmed };
    let prefixed = if is_reserved_name(named) { seq!['_'] + truncate16(named, MAX_FILENAME_UTF16_UNITS - 1) } else { named };
    let bounded = trim_end(truncate16(prefixed, MAX_FILENAME_UTF16_UNITS as int), true);
    if bounded.len() == 0 { download_name() } else { bounded }
}

} // verus!

verus! {

/// A filename that holds one bounded, Windows-safe path component.
#[derive(Clone, PartialEq, Eq, Hash)]
pub struct SanitizedFilename {
    name: String,
}

impl View for SanitizedFilename {
    type V = Seq<char>;

    closed spec fn view(&self) -> Seq<char> {
        self.name@
    }
}

impl SanitizedFilename {
    /// Returns the sanitized component as text.
    pub fn as_str(&self) -> (text: &str)
        ensures
            text@ == self@,
    {
        self.name.as_str()
    }
}

/// Whether a character is a Unicode control character.
pub fn is_control(c: char) -> (control: bool)
    ensures
        control == is_control_char(c),
{
    let code = c as u32;
    code <= 0x1f || (0x7f <= code && code <= 0x9f)
}

/// Whether a character is invalid inside a Win32 path component.
pub fn is_windows_invalid(c: char) -> (invalid: bool)
    ensures
        invalid == is_windows_invalid_char(c),
{
    c == '<' || c == '>' || c == ':' || c == '"' || c == '/' || c == '\\' || c == '|' || c == '?' || c == '*'
}

/// UTF-16 code units of a character.
pub fn len_utf16(c: char) -> (units: usize)
    ensures
        units == utf16_len(c),
{
    if (c as u32) < 0x10000 { 1 } else { 2 }
}

/// Whether two character sequences are equal.
pub fn same_chars(a: &[char], b: &[char]) -> (same: bool)
    ensures
        same == (a@ == b@),
{
    if a.len() != b.len() {
        return false;
    }
    let mut index: usize = 0;
    while index < a.len()
        invariant
            a@.len() == b@.len(),
            0 <= index <= a@.len(),
            forall|k: int| 0 <= k < index ==> a@[k] == b@[k],
        decreases a@.len() - index,
    {
        if a[index] != b[index] {
            return false;
        }
        index += 1;
    }
    proof {
        assert(a@ =~= b@);
    }
    true
}

proof fn lemma_skip_step<T>(s: Seq<T>, i: int)
    requires
        0 <= i < s.len(),
    ensures
        s.skip(i).drop_first() =~= s.skip(i + 1),
        s.skip(i)[0] == s[i],
        s.skip(i).len() > 0,
{
}

/// The longest prefix whose UTF-16 length is at most `maximum_units`.
pub fn truncate_chars(chars: &[char], maximum_units: usize) -> (prefix: Vec<char>)
    ensures
        prefix@ == truncate16(chars@, maximum_units as int),
{
    let mut out: Vec<char> = Vec::new();
    let mut remaining = maximum_units;
    let mut index: usize = 0;
    proof {
        assert(chars@.skip(0) =~= chars@);
        assert(out@ + truncate16(chars@, maximum_units as int) =~= truncate16(chars@, maximum_units as int));
    }
    while index < chars.len()
        invariant
            0 <= index <= chars@.len(),
            truncate16(chars@, maximum_units as int) == out@ + truncate16(chars@.skip(index as int), remaining as int),
        decreases chars@.len() - index,
    {
        let units = len_utf16(chars[index]);
        proof {
            lemma_skip_step(chars@, index as int);
        }
        if units > remaining {
            proof {
                assert(out@ + Seq::<char>::empty() =~= out@);
            }
            return out;
        }
        out.push(chars[index]);
        proof {
            assert(out@ + truncate16(chars@.skip(index + 1), remaining - units)
                =~= out@.drop_last() + (seq![chars@[index as int]] + truncate16(chars@.skip(index + 1), remaining - units)));
        }
        remaining -= units;
        index += 1;
    }
    proof {
        assert(chars@.skip(chars@.len() as int).len() == 0);
        assert(out@ + Seq::<char>::empty() =~= out@);
    }
    out
}

/// Characters of `value` up to a UTF-16 budget, never splitting a character.
pub fn truncate_utf16(value: &str, maximum_units: usize) -> (text: String)
    ensures
        text@ == truncate16(value@, maximum_units as int),
{
    let chars = chars_of(value);
    let prefix = truncate_chars(chars.as_slice(), maximum_units);
    string_from_chars(prefix.as_slice())
}

/// Removes trailing spaces, and trailing dots too when `dots` is set.
pub fn trim_end_chars(chars: &mut Vec<char>, dots: bool)
    ensures
        final(chars)@ == trim_end(old(chars)@, dots),
{
    while chars.len() > 0 && (chars[chars.len() - 1] == ' ' || (dots && chars[chars.len() - 1] == '.'))
        invariant
            trim_end(chars@, dots) == trim_end(old(chars)@, dots),
        decreases chars@.len(),
    {
        chars.pop();
    }
}

/// Removes leading spaces.
pub fn trim_start_space_chars(chars: &[char]) -> (trimmed: Vec<char>)
    ensures
        trimmed@ == trim_start_spaces(chars@),
{
    let mut start: usize = 0;
    proof {
        assert(chars@.skip(0) =~= chars@);
    }
    while start < chars.len() && chars[start] == ' '
        invariant
            0 <= start <= chars@.len(),
            trim_start_spaces(chars@.skip(start as int)) == trim_start_spaces(chars@),
        decreases chars@.len() - start,
    {
        proof {
            lemma_skip_step(chars@, start as int);
        }
        start += 1;
    }
    let mut out: Vec<char> = Vec::new();
    let mut index = start;
    while index < chars.len()
        invariant
            start <= index <= chars@.len(),
            out@ =~= chars@.subrange(start as int, index as int),
        decreases chars@.len() - index,
    {
        out.push(chars[index]);
        index += 1;
    }
    proof {
        assert(chars@.subrange(start as int, chars@.len() as int) =~= chars@.skip(start as int));
        if start < chars@.len() {
            assert(chars@.skip(start as int)[0] == chars@[start as int]);
        }
    }
    out
}

/// Whether a filename's stem is a Windows device name.
pub fn is_windows_reserved(filename: &[char]) -> (reserved: bool)
    ensures
        reserved == is_reserved_name(filename@),
{
    let mut stem: Vec<char> = Vec::new();
    let mut index: usize = 0;
    proof {
        assert(filename@.skip(0) =~= filename@);
        assert(stem@ + before_first_dot(filename@) =~= before_first_dot(filename@));
    }
    while index < filename.len() && filename[index] != '.'
        invariant
            0 <= index <= filename@.len(),
            before_first_dot(filename@) == stem@ + before_first_dot(filename@.skip(index as int)),
        decreases filename@.len() - index,
    {
        proof {
            lemma_skip_step(filename@, index as int);
            assert(stem@.push(filename@[index as int]) + before_first_dot(filename@.skip(index + 1))
                =~= stem@ + (seq![filename@[index as int]] + before_first_dot(filename@.skip(index + 1))));
        }
        stem.push(filename[index]);
        index += 1;
    }
    proof {
        if index < filename@.len() {
            lemma_skip_step(filename@, index as int);
        }
        assert(stem@ + Seq::<char>::empty() =~= stem@);
    }
    trim_end_chars(&mut stem, true);
    let mut upper: Vec<char> = Vec::new();
    let mut k: usize = 0;
    while k < stem.len()
        invariant
            0 <= k <= stem@.len(),
            upper@ =~= stem@.take(k as int).map_values(|c: char| ascii_upper(c)),
        decreases stem@.len() - k,
    {
        let c = stem[k];
        let u = if 'a' <= c && c <= 'z' { ((c as u32) - 32) as u8 as char } else { c };
        proof {
            if 'a' <= c && c <= 'z' {
                assert(((c as u32) - 32) as u8 as char == ((c as u32) - 32) as char);
            }
            assert(stem@.take(k + 1).map_values(|c: char| ascii_upper(c))
                =~= stem@.take(k as int).map_values(|c: char| ascii_upper(c)).push(ascii_upper(c)));
        }
        upper.push(u);
        k += 1;
    }
    proof {
        assert(stem@.take(stem@.len() as int) =~= stem@);
    }
    let u = upper.as_slice();
    if same_chars(u, &['C', 'O', 'N']) || same_chars(u, &['P', 'R', 'N']) || same_chars(u, &['A', 'U', 'X'])
        || same_chars(u, &['N', 'U', 'L']) || same_chars(u, &['C', 'L', 'O', 'C', 'K', '$'])
        || same_chars(u, &['C', 'O', 'N', 'I', 'N', '$']) || same_chars(u, &['C', 'O', 'N', 'O', 'U', 'T', '$']) {
        return true;
    }
    if u.len() != 4 {
        return false;
    }
    let device = (u[0] == 'C' && u[1] == 'O' && u[2] == 'M') || (u[0] == 'L' && u[1] == 'P' && u[2] == 'T');
    let digit = ('1' <= u[3] && u[3] <= '9') || u[3] == '\u{b9}' || u[3] == '\u{b2}' || u[3] == '\u{b3}';
    proof {
        assert(u@.take(3) =~= seq![u@[0], u@[1], u@[2]]);
    }
    device && digit
}

} // verus!

verus! {

fn download_chars() -> (name: Vec<char>)
    ensures
        name@ == download_name(),
{
    let name = vec!['d', 'o', 'w', 'n', 'l', 'o', 'a', 'd'];
    proof {
        assert(name@ =~= download_name());
    }
    name
}

/// Converts untrusted filename metadata into one safe Windows path component.
///
/// Separators, alternate-data-stream colons, wildcards, control characters,
/// and other Win32-invalid characters become underscores. Trailing dots and
/// spaces are removed, reserved device names are prefixed, and the result is
/// bounded by UTF-16 code units. Empty results become `download`.
pub fn sanitize_filename(input: &str) -> (name: SanitizedFilename)
    ensures
        name@ == sanitized(input@),
        forall|i: int| 0 <= i < name@.len() ==> {
            let c = #[trigger] name@[i];
            c != '<' && c != '>' && c != ':' && c != '"' && c != '/' && c != '\\' && c != '|' && c != '?' && c != '*'
                && (c as u32) >= 0x20 && !(0x7f <= (c as u32) && (c as u32) <= 0x9f)
        },
{
    let chars = chars_of(input);
    let mut out: Vec<char> = Vec::new();
    let mut units: usize = 0;
    let mut previous_replaced = false;
    let mut index: usize = 0;
    proof {
        assert(chars@.skip(0) =~= chars@);
    }
    while index < chars.len()
        invariant
            0 <= index <= chars@.len(),
            chars@ == input@,
            units <= MAX_FILENAME_UTF16_UNITS,
            collect_safe(input@, Seq::empty(), 0, false) == collect_safe(chars@.skip(index as int), out@, units as int, previous_replaced),
        decreases chars@.len() - index,
    {
        let c = chars[index];
        proof {
            lemma_skip_step(chars@, index as int);
        }
        let replaced = is_control(c) || is_windows_invalid(c);
        let candidate = if replaced { '_' } else { c };
        if replaced && previous_replaced {
            index += 1;
        } else {
            let width = len_utf16(candidate);
            if units + width > MAX_FILENAME_UTF16_UNITS {
                index = chars.len();
                proof {
                    assert(chars@.skip(index as int).len() == 0);
                }
            } else {
                out.push(candidate);
                units += width;
                previous_replaced = replaced;
                index += 1;
            }
        }
    }
    proof {
        assert(chars@.skip(index as int).len() == 0);
        assert(collect_safe(input@, Seq::empty(), 0, false) == out@);
    }
    let mut trimmed = trim_start_space_chars(out.as_slice());
    trim_end_chars(&mut trimmed, false);
    trim_end_chars(&mut trimmed, true);
    let one_dot = ['.'];
    let two_dots = ['.', '.'];
    proof {
        assert(one_dot@ =~= seq!['.']);
        assert(two_dots@ =~= seq!['.', '.']);
    }
    let named = if trimmed.len() == 0 || same_chars(trimmed.as_slice(), &one_dot) || same_chars(trimmed.as_slice(), &two_dots) {
        download_chars()
    } else {
        trimmed
    };
    let prefixed = if is_windows_reserved(named.as_slice()) {
        let mut with_prefix: Vec<char> = vec!['_'];
        let mut rest = truncate_chars(named.as_slice(), MAX_FILENAME_UTF16_UNITS - 1);
        with_prefix.append(&mut rest);
        proof {
            assert(with_prefix@ =~= seq!['_'] + truncate16(named@, MAX_FILENAME_UTF16_UNITS - 1));
        }
        with_prefix
    } else {
        named
    };
    let mut bounded = truncate_chars(prefixed.as_slice(), MAX_FILENAME_UTF16_UNITS);
    trim_end_chars(&mut bounded, true);
    let result = if bounded.len() == 0 { download_chars() } else { bounded };
    let name = SanitizedFilename { name: string_from_chars(result.as_slice()) };
    proof {
        assert forall|i: int| 0 <= i < name@.len() implies {
            let c = #[trigger] name@[i];
            c != '<' && c != '>' && c != ':' && c != '"' && c != '/' && c != '\\' && c != '|' && c != '?' && c != '*'
                && (c as u32) >= 0x20 && !(0x7f <= (c as u32) && (c as u32) <= 0x9f)
        } by {
            lemma_sanitized_has_no_forbidden_char(input@, i);
        }
    }
    name
}

} // verus!

verus! {

/// Index of the last dot, if any.
pub open spec fn last_dot(s: Seq<char>) -> Option<int>
    decreases s.len(),
{
    if s.len() == 0 {
        None
    } else if s.last() == '.' {
        Some(s.len() - 1)
    } else {
        last_dot(s.drop_last())
    }
}

/// A filename split before its last dot; a leading-only or absent dot
/// leaves no extension.
pub open spec fn split_ext(s: Seq<char>) -> (Seq<char>, Seq<char>) {
    match last_dot(s) {
        Some(i) => if i == 0 { (s, Seq::empty()) } else { (s.take(i), s.skip(i)) },
        None => (s, Seq::empty()),
    }
}

/// The collision suffix ` (n)`.
pub open spec fn number_suffix(n: nat) -> Seq<char> {
    seq![' ', '('] + decimal(n) + seq![')']
}

/// The `index`-th publication candidate for a base name, bounded to 180
/// UTF-16 units and keeping the extension where it fits.
pub open spec fn numbered(base: Seq<char>, index: nat) -> Seq<char> {
    if index == 0 {
        base
    } else {
        let suffix = number_suffix(index);
        let (stem, extension) = split_ext(base);
        if utf16_units(extension) + suffix.len() + 1 >= MAX_FILENAME_UTF16_UNITS {
            truncate16(base, MAX_FILENAME_UTF16_UNITS - suffix.len()) + suffix
        } else {
            truncate16(stem, MAX_FILENAME_UTF16_UNITS - utf16_units(extension) - suffix.len()) + suffix + extension
        }
    }
}

fn last_dot_index(s: &[char]) -> (index: Option<usize>)
    ensures
        index matches Some(i) ==> last_dot(s@) == Some(i as int),
        index is None ==> last_dot(s@) is None,
{
    let mut end = s.len();
    proof {
        assert(s@.take(s@.len() as int) =~= s@);
    }
    while end > 0
        invariant
            0 <= end <= s@.len(),
            last_dot(s@) == last_dot(s@.take(end as int)),
        decreases end,
    {
        proof {
            assert(s@.take(end as int).drop_last() =~= s@.take(end - 1));
        }
        if s[end - 1] == '.' {
            return Some(end - 1);
        }
        end -= 1;
    }
    None
}

proof fn lemma_last_dot_bound(s: Seq<char>)
    ensures
        last_dot(s) matches Some(i) ==> 0 <= i < s.len() && s[i] == '.',
    decreases s.len(),
{
    if s.len() > 0 && s.last() != '.' {
        lemma_last_dot_bound(s.drop_last());
    }
}

/// Splits a filename before its last dot (a leading dot is not an extension).
pub fn split_extension(filename: &[char]) -> (parts: (Vec<char>, Vec<char>))
    ensures
        (parts.0@, parts.1@) == split_ext(filename@),
{
    proof {
        assert(filename@.take(filename@.len() as int) =~= filename@);
        lemma_last_dot_bound(filename@);
    }
    match last_dot_index(filename) {
        Some(index) if index > 0 => {
            let mut stem: Vec<char> = Vec::new();
            let mut extension: Vec<char> = Vec::new();
            let mut k: usize = 0;
            while k < filename.len()
                invariant
                    0 <= index < filename@.len(),
                    0 <= k <= filename@.len(),
                    k <= index ==> stem@ =~= filename@.take(k as int) && extension@.len() == 0,
                    k > index ==> stem@ =~= filename@.take(index as int) && extension@ =~= filename@.subrange(index as int, k as int),
                decreases filename@.len() - k,
            {
                if k < index {
                    stem.push(filename[k]);
                } else {
                    extension.push(filename[k]);
                }
                k += 1;
            }
            proof {
                assert(filename@.subrange(index as int, filename@.len() as int) =~= filename@.skip(index as int));
            }
            (stem, extension)
        }
        _ => {
            let mut whole: Vec<char> = Vec::new();
            let mut k: usize = 0;
            while k < filename.len()
                invariant
                    0 <= k <= filename@.len(),
                    whole@ =~= filename@.take(k as int),
                decreases filename@.len() - k,
            {
                whole.push(filename[k]);
                k += 1;
            }
            (whole, Vec::new())
        }
    }
}

/// UTF-16 code units of a character sequence.
pub fn count_utf16(chars: &[char]) -> (units: usize)
    requires
        chars@.len() <= usize::MAX / 2,
    ensures
        units == utf16_units(chars@),
        units <= 2 * chars@.len(),
{
    let mut units: usize = 0;
    let mut k: usize = 0;
    while k < chars.len()
        invariant
            0 <= k <= chars@.len(),
            chars@.len() <= usize::MAX / 2,
            units == utf16_units(chars@.take(k as int)),
            units <= 2 * k,
        decreases chars@.len() - k,
    {
        proof {
            assert(chars@.take(k + 1).drop_last() =~= chars@.take(k as int));
        }
        units += len_utf16(chars[k]);
        k += 1;
    }
    proof {
        assert(chars@.take(chars@.len() as int) =~= chars@);
    }
    units
}

/// The `index`-th collision-free publication candidate for `base`: the base
/// itself, then `stem (n).ext`, bounded to 180 UTF-16 units.
pub fn numbered_filename(base: &str, index: u32) -> (name: String)
    ensures
        name@ == numbered(base@, index as nat),
{
    let base_chars = chars_of(base);
    if index == 0 {
        return string_from_chars(base_chars.as_slice());
    }
    let mut suffix: Vec<char> = vec![' ', '('];
    push_decimal(&mut suffix, index as u64);
    suffix.push(')');
    proof {
        assert(suffix@ =~= number_suffix(index as nat));
        lemma_decimal_len(index as nat);
    }
    let (stem, extension) = split_extension(base_chars.as_slice());
    let extension_units = if extension.len() > usize::MAX / 4 { usize::MAX } else { count_utf16(extension.as_slice()) };
    if extension.len() > usize::MAX / 4 || extension_units + suffix.len() + 1 >= MAX_FILENAME_UTF16_UNITS {
        proof {
            lemma_utf16_at_least_len(extension@);
        }
        let mut out = truncate_chars(base_chars.as_slice(), MAX_FILENAME_UTF16_UNITS - suffix.len());
        out.append(&mut suffix);
        return string_from_chars(out.as_slice());
    }
    let mut out = truncate_chars(stem.as_slice(), MAX_FILENAME_UTF16_UNITS - extension_units - suffix.len());
    out.append(&mut suffix);
    let mut rest = extension;
    out.append(&mut rest);
    string_from_chars(out.as_slice())
}

proof fn lemma_decimal_len(n: nat)
    requires
        n <= u32::MAX,
    ensures
        1 <= decimal(n).len() <= 10,
{
    assert(pow10(10) == 10000000000) by {
        reveal_with_fuel(pow10, 11);
    }
    lemma_decimal_len_below(n, 10);
}

/// Powers of ten.
pub open spec fn pow10(k: nat) -> nat
    decreases k,
{
    if k == 0 { 1 } else { 10 * pow10((k - 1) as nat) }
}

proof fn lemma_decimal_len_below(n: nat, k: nat)
    requires
        n < pow10(k),
        k >= 1,
    ensures
        1 <= decimal(n).len() <= k,
    decreases n,
{
    if n >= 10 {
        assert(k >= 2) by {
            if k == 1 {
                assert(pow10(1) == 10 * pow10(0));
            }
        }
        assert(pow10(k) == 10 * pow10((k - 1) as nat));
        lemma_decimal_len_below(n / 10, (k - 1) as nat);
    }
}

proof fn lemma_utf16_at_least_len(s: Seq<char>)
    ensures
        utf16_units(s) >= s.len(),
    decreases s.len(),
{
    if s.len() > 0 {
        lemma_utf16_at_least_len(s.drop_last());
    }
}

/// A prefix never takes more UTF-16 units than the whole.
pub(crate) proof fn lemma_utf16_units_prefix_le(s: Seq<char>, k: int)
    requires
        0 <= k <= s.len(),
    ensures
        utf16_units(s.take(k)) <= utf16_units(s),
    decreases s.len(),
{
    if k == s.len() {
        assert(s.take(k) =~= s);
    } else {
        assert(s.drop_last().take(k) =~= s.take(k));
        lemma_utf16_units_prefix_le(s.drop_last(), k);
    }
}

} // verus!

verus! {

/// No character of `s` is one sanitization replaces.
pub open spec fn no_replaced(s: Seq<char>) -> bool {
    forall|i: int| 0 <= i < s.len() ==> !is_replaced_char(#[trigger] s[i])
}

/// What every sanitized name is: non-empty, within the UTF-16 bound,
/// without a replaced character, a leading space, a trailing space or dot,
/// or a reserved device name.
pub open spec fn settled_name(s: Seq<char>) -> bool {
    &&& s.len() > 0
    &&& utf16_units(s) <= MAX_FILENAME_UTF16_UNITS
    &&& no_replaced(s)
    &&& s[0] != ' '
    &&& s.last() != ' '
    &&& s.last() != '.'
    &&& !is_reserved_name(s)
}

proof fn lemma_utf16_len_range(c: char)
    ensures
        1 <= utf16_len(c) <= 2,
{
}

proof fn lemma_units_first(s: Seq<char>)
    requires
        s.len() > 0,
    ensures
        utf16_units(s) == utf16_len(s[0]) + utf16_units(s.drop_first()),
    decreases s.len(),
{
    if s.len() == 1 {
        assert(s.drop_last() =~= Seq::<char>::empty());
        assert(s.drop_first() =~= Seq::<char>::empty());
        assert(utf16_units(Seq::<char>::empty()) == 0);
        assert(s.last() == s[0]);
    } else {
        lemma_units_first(s.drop_last());
        assert(s.drop_last().drop_first() =~= s.drop_first().drop_last());
        assert(s.drop_first().last() == s.last());
        assert(s.drop_last()[0] == s[0]);
        assert(utf16_units(s.drop_first()) == utf16_units(s.drop_first().drop_last()) + utf16_len(s.drop_first().last()));
    }
}

proof fn lemma_units_nonneg(s: Seq<char>)
    ensures
        utf16_units(s) >= 0,
    decreases s.len(),
{
    if s.len() > 0 {
        lemma_units_nonneg(s.drop_last());
        lemma_utf16_len_range(s.last());
    }
}

proof fn lemma_collect_safe_props(input: Seq<char>, out: Seq<char>, units: int, previous: bool)
    requires
        units == utf16_units(out),
        units <= MAX_FILENAME_UTF16_UNITS,
        no_replaced(out),
    ensures
        no_replaced(collect_safe(input, out, units, previous)),
        utf16_units(collect_safe(input, out, units, previous)) <= MAX_FILENAME_UTF16_UNITS,
    decreases input.len(),
{
    if input.len() > 0 {
        let c = input[0];
        let replaced = is_replaced_char(c);
        let candidate = if replaced { '_' } else { c };
        if replaced && previous {
            lemma_collect_safe_props(input.drop_first(), out, units, previous);
        } else if units + utf16_len(candidate) > MAX_FILENAME_UTF16_UNITS {
        } else {
            let next = out.push(candidate);
            assert(next.drop_last() =~= out);
            assert(!is_replaced_char(candidate));
            assert(no_replaced(next)) by {
                assert forall|i: int| 0 <= i < next.len() implies !is_replaced_char(#[trigger] next[i]) by {
                    if i < out.len() {
                        assert(next[i] == out[i]);
                    }
                }
            }
            lemma_collect_safe_props(input.drop_first(), next, units + utf16_len(candidate), replaced);
        }
    }
}

proof fn lemma_collect_safe_identity(input: Seq<char>, out: Seq<char>, units: int, previous: bool)
    requires
        units == utf16_units(out),
        units + utf16_units(input) <= MAX_FILENAME_UTF16_UNITS,
        no_replaced(input),
    ensures
        collect_safe(input, out, units, previous) == out + input,
    decreases input.len(),
{
    if input.len() == 0 {
        assert(out + input =~= out);
    } else {
        let c = input[0];
        assert(!is_replaced_char(c));
        lemma_units_first(input);
        lemma_units_nonneg(input.drop_first());
        let next = out.push(c);
        assert(next.drop_last() =~= out);
        assert(no_replaced(input.drop_first())) by {
            assert forall|i: int| 0 <= i < input.drop_first().len() implies !is_replaced_char(
                #[trigger] input.drop_first()[i],
            ) by {
                assert(input.drop_first()[i] == input[i + 1]);
            }
        }
        lemma_collect_safe_identity(input.drop_first(), next, units + utf16_len(c), false);
        assert(next + input.drop_first() =~= out + input);
    }
}

proof fn lemma_trim_start(s: Seq<char>)
    ensures
        trim_start_spaces(s).len() == 0 || trim_start_spaces(s)[0] != ' ',
        trim_start_spaces(s).len() <= s.len(),
        trim_start_spaces(s) == s.skip(s.len() - trim_start_spaces(s).len()),
        s.len() == 0 || s[0] != ' ' ==> trim_start_spaces(s) == s,
    decreases s.len(),
{
    if s.len() > 0 && s[0] == ' ' {
        lemma_trim_start(s.drop_first());
        let r = trim_start_spaces(s.drop_first());
        assert(s.drop_first().skip(s.drop_first().len() - r.len()) =~= s.skip(s.len() - r.len()));
    } else {
        assert(s.skip(0) =~= s);
    }
}

proof fn lemma_trim_end(s: Seq<char>, dots: bool)
    ensures
        trim_end(s, dots).len() <= s.len(),
        trim_end(s, dots) == s.take(trim_end(s, dots).len() as int),
        trim_end(s, dots).len() > 0 ==> trim_end(s, dots).last() != ' ' && (dots ==> trim_end(s, dots).last() != '.'),
        s.len() == 0 || !(s.last() == ' ' || (dots && s.last() == '.')) ==> trim_end(s, dots) == s,
    decreases s.len(),
{
    if s.len() > 0 && (s.last() == ' ' || (dots && s.last() == '.')) {
        lemma_trim_end(s.drop_last(), dots);
        let r = trim_end(s.drop_last(), dots);
        assert(s.drop_last().take(r.len() as int) =~= s.take(r.len() as int));
    } else {
        assert(s.take(s.len() as int) =~= s);
    }
}

proof fn lemma_truncate16(s: Seq<char>, max: int)
    requires
        max >= 0,
    ensures
        truncate16(s, max).len() <= s.len(),
        truncate16(s, max) == s.take(truncate16(s, max).len() as int),
        utf16_units(truncate16(s, max)) <= max,
        utf16_units(s) <= max ==> truncate16(s, max) == s,
        s.len() > 0 && utf16_len(s[0]) <= max ==> truncate16(s, max).len() > 0,
    decreases s.len(),
{
    if s.len() == 0 {
        assert(s.take(0) =~= s);
    } else if utf16_len(s[0]) > max {
        assert(s.take(0) =~= Seq::<char>::empty());
        lemma_units_first(s);
        lemma_units_nonneg(s.drop_first());
    } else {
        let rest = s.drop_first();
        lemma_truncate16(rest, max - utf16_len(s[0]));
        let r = truncate16(rest, max - utf16_len(s[0]));
        let whole = seq![s[0]] + r;
        assert(whole =~= s.take(whole.len() as int));
        lemma_units_first(whole);
        assert(whole.drop_first() =~= r);
        lemma_units_first(s);
    }
}

proof fn lemma_units_take(s: Seq<char>, k: int)
    requires
        0 <= k <= s.len(),
    ensures
        utf16_units(s.take(k)) <= utf16_units(s),
{
    lemma_utf16_units_prefix_le(s, k);
}

proof fn lemma_units_skip(s: Seq<char>, k: int)
    requires
        0 <= k <= s.len(),
    ensures
        utf16_units(s.skip(k)) <= utf16_units(s),
    decreases k,
{
    if k > 0 {
        lemma_units_first(s);
        lemma_utf16_len_range(s[0]);
        assert(s.drop_first().skip(k - 1) =~= s.skip(k));
        lemma_units_skip(s.drop_first(), k - 1);
    } else {
        assert(s.skip(0) =~= s);
    }
}

proof fn lemma_no_replaced_take(s: Seq<char>, k: int)
    requires
        0 <= k <= s.len(),
        no_replaced(s),
    ensures
        no_replaced(s.take(k)),
{
    assert forall|i: int| 0 <= i < s.take(k).len() implies !is_replaced_char(#[trigger] s.take(k)[i]) by {
        assert(s.take(k)[i] == s[i]);
    }
}

proof fn lemma_no_replaced_skip(s: Seq<char>, k: int)
    requires
        0 <= k <= s.len(),
        no_replaced(s),
    ensures
        no_replaced(s.skip(k)),
{
    assert forall|i: int| 0 <= i < s.skip(k).len() implies !is_replaced_char(#[trigger] s.skip(k)[i]) by {
        assert(s.skip(k)[i] == s[i + k]);
    }
}

proof fn lemma_download_settled()
    ensures
        settled_name(download_name()),
{
    let d = download_name();
    assert(before_first_dot(d) =~= d) by {
        reveal_with_fuel(before_first_dot, 9);
    }
    assert(trim_end(d, true) == d);
    let stem = reserved_stem(d);
    assert(stem.len() == 8);
    assert(utf16_units(d) == 8) by {
        reveal_with_fuel(utf16_units, 9);
    }
    assert(no_replaced(d));
    assert(!is_reserved_stem(stem)) by {
        assert(stem[0] == 'D');
    }
}

proof fn lemma_underscore_not_reserved(s: Seq<char>)
    requires
        s.len() > 0,
        s[0] == '_',
    ensures
        !is_reserved_name(s),
{
    let b = before_first_dot(s);
    assert(b.len() > 0 && b[0] == '_');
    lemma_trim_end(b, true);
    let t = trim_end(b, true);
    if t.len() == 0 {
        assert(b.last() == ' ' || b.last() == '.');
        assert(trim_end(b, true) == trim_end(b.drop_last(), true));
        lemma_trim_end_keeps_head(b);
    }
    assert(t.len() > 0);
    assert(t[0] == b[0]);
    let stem = reserved_stem(s);
    assert(stem[0] == ascii_upper('_'));
    assert(stem[0] == '_');
}

proof fn lemma_trim_end_keeps_head(s: Seq<char>)
    requires
        s.len() > 0,
        s[0] != ' ',
        s[0] != '.',
    ensures
        trim_end(s, true).len() > 0,
    decreases s.len(),
{
    if s.len() > 1 && (s.last() == ' ' || s.last() == '.') {
        lemma_trim_end_keeps_head(s.drop_last());
    }
}

/// Every sanitized name is settled: non-empty, bounded, free of replaced
/// characters and of leading spaces, trailing spaces and dots, and not a
/// device name.
pub proof fn lemma_sanitized_is_settled(input: Seq<char>)
    ensures
        settled_name(sanitized(input)),
{
    lemma_collect_safe_props(input, Seq::empty(), 0, false);
    let collected = collect_safe(input, Seq::empty(), 0, false);
    lemma_trim_start(collected);
    let a = trim_start_spaces(collected);
    lemma_units_skip(collected, collected.len() - a.len());
    lemma_no_replaced_skip(collected, collected.len() - a.len());
    lemma_trim_end(a, false);
    let b = trim_end(a, false);
    lemma_units_take(a, b.len() as int);
    lemma_no_replaced_take(a, b.len() as int);
    lemma_trim_end(b, true);
    let trimmed = trim_end(b, true);
    lemma_units_take(b, trimmed.len() as int);
    lemma_no_replaced_take(b, trimmed.len() as int);
    if trimmed.len() > 0 {
        assert(trimmed[0] == b[0]);
        assert(b[0] == a[0]);
    }
    lemma_download_settled();
    let named = if trimmed.len() == 0 || trimmed == seq!['.'] || trimmed == seq!['.', '.'] { download_name() } else {
        trimmed
    };
    assert(settled_name(named) || is_reserved_name(named));
    if is_reserved_name(named) {
        lemma_truncate16(named, MAX_FILENAME_UTF16_UNITS - 1);
        let cut = truncate16(named, MAX_FILENAME_UTF16_UNITS - 1);
        lemma_no_replaced_take(named, cut.len() as int);
        let prefixed = seq!['_'] + cut;
        assert(prefixed.drop_first() =~= cut);
        lemma_units_first(prefixed);
        assert(utf16_units(prefixed) <= MAX_FILENAME_UTF16_UNITS);
        lemma_truncate16(prefixed, MAX_FILENAME_UTF16_UNITS as int);
        assert(truncate16(prefixed, MAX_FILENAME_UTF16_UNITS as int) == prefixed);
        assert(no_replaced(prefixed)) by {
            assert forall|i: int| 0 <= i < prefixed.len() implies !is_replaced_char(#[trigger] prefixed[i]) by {
                if i > 0 {
                    assert(prefixed[i] == cut[i - 1]);
                }
            }
        }
        lemma_trim_end(prefixed, true);
        lemma_trim_end_keeps_head(prefixed);
        let bounded = trim_end(prefixed, true);
        lemma_units_take(prefixed, bounded.len() as int);
        lemma_no_replaced_take(prefixed, bounded.len() as int);
        assert(bounded[0] == '_');
        lemma_underscore_not_reserved(bounded);
        assert(sanitized(input) == bounded);
    } else {
        lemma_truncate16(named, MAX_FILENAME_UTF16_UNITS as int);
        assert(truncate16(named, MAX_FILENAME_UTF16_UNITS as int) == named);
        lemma_trim_end(named, true);
        assert(sanitized(input) == named);
    }
}

/// A sanitized name holds none of the characters Win32 rejects in a path
/// component (`<`, `>`, `:`, `"`, `/`, `\`, `|`, `?`, `*`) and no control
/// character (U+0000 through U+001F, U+007F through U+009F).
pub proof fn lemma_sanitized_has_no_forbidden_char(input: Seq<char>, i: int)
    requires
        0 <= i < sanitized(input).len(),
    ensures
        ({
            let c = sanitized(input)[i];
            c != '<' && c != '>' && c != ':' && c != '"' && c != '/' && c != '\\' && c != '|' && c != '?' && c != '*'
            && (c as u32) >= 0x20 && !(0x7f <= (c as u32) && (c as u32) <= 0x9f)
        }),
{
    lemma_sanitized_is_settled(input);
    assert(!is_replaced_char(sanitized(input)[i]));
}

/// Sanitizing a sanitized name changes nothing, so a name the library
/// produced always passes the "already sanitized" check.
pub proof fn lemma_sanitize_idempotent(input: Seq<char>)
    ensures
        sanitized(sanitized(input)) == sanitized(input),
{
    lemma_sanitized_is_settled(input);
    let s = sanitized(input);
    lemma_collect_safe_identity(s, Seq::empty(), 0, false);
    assert(Seq::<char>::empty() + s =~= s);
    lemma_trim_start(s);
    lemma_trim_end(s, false);
    lemma_trim_end(s, true);
    lemma_truncate16(s, MAX_FILENAME_UTF16_UNITS as int);
    assert(s != seq!['.']);
    assert(s != seq!['.', '.']);
}

} // verus!
