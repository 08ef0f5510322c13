//! Small verified text conversions shared by the parsers.
use vstd::prelude::*;
use crate::integrity::ascii_lower;

verus! {

/// Appends one character with `String::push`; the contract is the
/// documented effect of pushing a `char` onto a `String`.
#[verifier::external_body]
pub(crate) fn push_char(text: &mut String, c: char)
    ensures
        final(text)@ == old(text)@.push(c),
{
    text.push(c);
}

/// The characters of a string, in order.
pub fn chars_of(s: &str) -> (chars: Vec<char>)
    ensures
        chars@ == s@,
{
    let mut out: Vec<char> = Vec::new();
    for c in it: s.chars()
        invariant
            out@ == it.seq().take(it.index() as int),
    {
        out.push(c);
    }
    proof {
        assert(out@ =~= s@);
    }
    out
}

/// A string holding exactly the given characters.
pub fn string_from_chars(chars: &[char]) -> (text: String)
    ensures
        text@ == chars@,
{
    let mut out = String::new();
    let mut index: usize = 0;
    while index < chars.len()
        invariant
            0 <= index <= chars@.len(),
            out@ == chars@.take(index as int),
        decreases chars@.len() - index,
    {
        push_char(&mut out, chars[index]);
        proof {
            assert(chars@.take(index + 1) =~= chars@.take(index as int).push(chars@[index as int]));
        }
        index += 1;
    }
    proof {
        assert(chars@.take(chars@.len() as int) =~= chars@);
    }
    out
}

} // verus!

verus! {

/// An ASCII decimal digit.
pub open spec fn is_digit_char(c: char) -> bool {
    '0' <= c <= '9'
}

/// Whether every character is an ASCII decimal digit.
pub open spec fn all_digits(s: Seq<char>) -> bool {
    forall|i: int| 0 <= i < s.len() ==> is_digit_char(#[trigger] s[i])
}

/// The value spelled by decimal digits, most significant first.
pub open spec fn digits_value(s: Seq<char>) -> nat
    decreases s.len(),
{
    if s.len() == 0 {
        0
    } else {
        digits_value(s.drop_last()) * 10 + ((s.last() as u32) - 0x30) as nat
    }
}

/// A non-empty run of decimal digits whose value fits in `u64`, as that value.
pub open spec fn decimal_u64(s: Seq<char>) -> Option<u64> {
    if s.len() > 0 && all_digits(s) && digits_value(s) <= u64::MAX {
        Some(digits_value(s) as u64)
    } else {
        None
    }
}

proof fn lemma_digits_value_monotone(s: Seq<char>, k: int)
    requires
        0 <= k <= s.len(),
        all_digits(s),
    ensures
        digits_value(s.take(k)) <= digits_value(s),
    decreases s.len() - k,
{
    if k < s.len() {
        lemma_digits_value_monotone(s, k + 1);
        assert(s.take(k + 1).drop_last() =~= s.take(k));
        assert(is_digit_char(s[k]));
    } else {
        assert(s.take(k) =~= s);
    }
}

/// Parses a non-empty string of ASCII digits into a `u64`, rejecting signs,
/// other characters and values that overflow.
pub fn parse_u64(value: &str) -> (parsed: Option<u64>)
    ensures
        parsed == decimal_u64(value@),
{
    let chars = chars_of(value);
    decimal_from_chars(chars.as_slice())
}

/// [`parse_u64`] on a character slice.
pub fn decimal_from_chars(chars: &[char]) -> (parsed: Option<u64>)
    ensures
        parsed == decimal_u64(chars@),
{
    let n = chars.len();
    if n == 0 {
        return None;
    }
    let mut acc: u64 = 0;
    let mut k: usize = 0;
    while k < n
        invariant
            n == chars@.len(),
            0 <= k <= n,
            all_digits(chars@.take(k as int)),
            acc == digits_value(chars@.take(k as int)),
        decreases n - k,
    {
        let c = chars[k];
        if !('0' <= c && c <= '9') {
            assert(!is_digit_char(chars@[k as int]));
            return None;
        }
        let d = (c as u32 - 0x30) as u64;
        assert(chars@.take(k + 1).drop_last() =~= chars@.take(k as int));
        assert(all_digits(chars@.take(k + 1)));
        assert(digits_value(chars@.take(k + 1)) == acc * 10 + d);
        let scaled = acc.checked_mul(10);
        let next = match scaled {
            Some(m) => m.checked_add(d),
            None => None,
        };
        match next {
            Some(v) => {
                acc = v;
            }
            None => {
                proof {
                    if all_digits(chars@) {
                        lemma_digits_value_monotone(chars@, k + 1);
                    }
                }
                return None;
            }
        }
        k += 1;
    }
    assert(chars@.take(n as int) =~= chars@);
    Some(acc)
}

} // verus!

verus! {

/// The characters `s[from..to]` as a new vector.
pub fn copy_range(s: &[char], from: usize, to: usize) -> (part: Vec<char>)
    requires
        from <= to <= s@.len(),
    ensures
        part@ == s@.subrange(from as int, to as int),
{
    let mut out: Vec<char> = Vec::new();
    let mut k: usize = from;
    while k < to
        invariant
            from <= k <= to <= s@.len(),
            out@ == s@.subrange(from as int, k as int),
        decreases to - k,
    {
        out.push(s[k]);
        proof {
            assert(s@.subrange(from as int, k + 1) =~= s@.subrange(from as int, k as int).push(s@[k as int]));
        }
        k += 1;
    }
    out
}

/// `i` is the first position of `c` in `s`.
pub open spec fn is_first_index(s: Seq<char>, c: char, i: int) -> bool {
    0 <= i < s.len() && s[i] == c && forall|j: int| 0 <= j < i ==> s[j] != c
}

/// The text before and after the first `c`, if `c` occurs.
pub open spec fn split_first(s: Seq<char>, c: char) -> Option<(Seq<char>, Seq<char>)> {
    if exists|i: int| is_first_index(s, c, i) {
        let i = choose|i: int| is_first_index(s, c, i);
        Some((s.take(i), s.skip(i + 1)))
    } else {
        None
    }
}

proof fn lemma_first_index_unique(s: Seq<char>, c: char, i: int, k: int)
    requires
        is_first_index(s, c, i),
        is_first_index(s, c, k),
    ensures
        i == k,
{
    if i < k {
        assert(s[i] != c);
    } else if k < i {
        assert(s[k] != c);
    }
}

/// Splits at the first occurrence of `c`, dropping it.
pub fn split_once_char(s: &[char], c: char) -> (parts: Option<(Vec<char>, Vec<char>)>)
    ensures
        parts matches Some((a, b)) ==> split_first(s@, c) == Some((a@, b@)),
        parts is None ==> split_first(s@, c) is None,
{
    let n = s.len();
    let mut k: usize = 0;
    while k < n
        invariant
            n == s@.len(),
            0 <= k <= n,
            forall|j: int| 0 <= j < k ==> s@[j] != c,
        decreases n - k,
    {
        if s[k] == c {
            proof {
                assert(is_first_index(s@, c, k as int));
                let i = choose|i: int| is_first_index(s@, c, i);
                lemma_first_index_unique(s@, c, i, k as int);
            }
            let before = copy_range(s, 0, k);
            let after = copy_range(s, k + 1, n);
            proof {
                assert(s@.subrange(0, k as int) =~= s@.take(k as int));
                assert(s@.subrange(k + 1, n as int) =~= s@.skip(k + 1));
            }
            return Some((before, after));
        }
        k += 1;
    }
    proof {
        assert forall|i: int| !is_first_index(s@, c, i) by {
            if 0 <= i < n {
                assert(s@[i] != c);
            }
        }
    }
    None
}

/// `i` is the first position of the pair `c c` in `s`.
pub open spec fn is_first_pair(s: Seq<char>, c: char, i: int) -> bool {
    0 <= i && i + 1 < s.len() && s[i] == c && s[i + 1] == c
        && forall|j: int| 0 <= j < i ==> !(s[j] == c && #[trigger] s[j + 1] == c)
}

/// The text before and after the first doubled `c`, if one occurs.
pub open spec fn split_first_pair(s: Seq<char>, c: char) -> Option<(Seq<char>, Seq<char>)> {
    if exists|i: int| is_first_pair(s, c, i) {
        let i = choose|i: int| is_first_pair(s, c, i);
        Some((s.take(i), s.skip(i + 2)))
    } else {
        None
    }
}

proof fn lemma_first_pair_unique(s: Seq<char>, c: char, i: int, k: int)
    requires
        is_first_pair(s, c, i),
        is_first_pair(s, c, k),
    ensures
        i == k,
{
    if i < k {
        assert(!(s[i] == c && s[i + 1] == c));
    } else if k < i {
        assert(!(s[k] == c && s[k + 1] == c));
    }
}

/// Splits at the first doubled `c`, dropping both characters.
pub fn split_once_pair(s: &[char], c: char) -> (parts: Option<(Vec<char>, Vec<char>)>)
    ensures
        parts matches Some((a, b)) ==> split_first_pair(s@, c) == Some((a@, b@)),
        parts is None ==> split_first_pair(s@, c) is None,
{
    let n = s.len();
    let mut k: usize = 0;
    while n >= 2 && k < n - 1
        invariant
            n == s@.len(),
            0 <= k <= n,
            forall|j: int| 0 <= j < k ==> !(s@[j] == c && #[trigger] s@[j + 1] == c),
        decreases n - k,
    {
        if s[k] == c && s[k + 1] == c {
            proof {
                assert(is_first_pair(s@, c, k as int));
                let i = choose|i: int| is_first_pair(s@, c, i);
                lemma_first_pair_unique(s@, c, i, k as int);
            }
            let before = copy_range(s, 0, k);
            let after = copy_range(s, k + 2, n);
            proof {
                assert(s@.subrange(0, k as int) =~= s@.take(k as int));
                assert(s@.subrange(k + 2, n as int) =~= s@.skip(k + 2));
            }
            return Some((before, after));
        }
        k += 1;
    }
    proof {
        assert forall|i: int| !is_first_pair(s@, c, i) by {
            if 0 <= i && i + 1 < n {
                assert(!(s@[i] == c && s@[i + 1] == c));
            }
        }
    }
    None
}

/// Unicode `White_Space`, the set `char::is_whitespace` tests.
pub open spec fn is_white_space(c: char) -> bool {
    ('\t' <= c <= '\r') || c == ' ' || c == '\u{85}' || c == '\u{a0}' || c == '\u{1680}'
        || ('\u{2000}' <= c <= '\u{200a}') || c == '\u{2028}' || c == '\u{2029}' || c == '\u{202f}'
        || c == '\u{205f}' || c == '\u{3000}'
}

/// Whether a character is Unicode white space.
pub fn is_white_space_char(c: char) -> (space: bool)
    ensures
        space == is_white_space(c),
{
    ('\t' <= c && c <= '\r') || c == ' ' || c == '\u{85}' || c == '\u{a0}' || c == '\u{1680}'
        || ('\u{2000}' <= c && c <= '\u{200a}') || c == '\u{2028}' || c == '\u{2029}' || c == '\u{202f}'
        || c == '\u{205f}' || c == '\u{3000}'
}

/// The text without leading white space.
pub open spec fn trim_start_ws(s: Seq<char>) -> Seq<char>
    decreases s.len(),
{
    if s.len() > 0 && is_white_space(s[0]) { trim_start_ws(s.drop_first()) } else { s }
}

/// The text without trailing white space.
pub open spec fn trim_end_ws(s: Seq<char>) -> Seq<char>
    decreases s.len(),
{
    if s.len() > 0 && is_white_space(s.last()) { trim_end_ws(s.drop_last()) } else { s }
}

/// The text without leading and trailing white space, as `str::trim` gives it.
pub open spec fn trim_ws(s: Seq<char>) -> Seq<char> {
    trim_end_ws(trim_start_ws(s))
}

proof fn lemma_trim_start_at(s: Seq<char>, a: int)
    requires
        0 <= a <= s.len(),
        forall|j: int| 0 <= j < a ==> is_white_space(#[trigger] s[j]),
        a == s.len() || !is_white_space(s[a]),
    ensures
        trim_start_ws(s) == s.skip(a),
    decreases a,
{
    if a == 0 {
        assert(s.skip(0) =~= s);
    } else {
        let t = s.drop_first();
        assert forall|j: int| 0 <= j < a - 1 implies is_white_space(#[trigger] t[j]) by {
            assert(t[j] == s[j + 1]);
        }
        assert(is_white_space(s[0]));
        lemma_trim_start_at(t, a - 1);
        assert(t.skip(a - 1) =~= s.skip(a));
    }
}

proof fn lemma_trim_end_at(s: Seq<char>, b: int)
    requires
        0 <= b <= s.len(),
        forall|j: int| b <= j < s.len() ==> is_white_space(#[trigger] s[j]),
        b == 0 || !is_white_space(s[b - 1]),
    ensures
        trim_end_ws(s) == s.take(b),
    decreases s.len() - b,
{
    if b == s.len() {
        assert(s.take(b) =~= s);
    } else {
        let t = s.drop_last();
        assert(is_white_space(s.last()));
        assert forall|j: int| b <= j < t.len() implies is_white_space(#[trigger] t[j]) by {
            assert(t[j] == s[j]);
        }
        lemma_trim_end_at(t, b);
        assert(t.take(b) =~= s.take(b));
    }
}

/// Removes leading and trailing Unicode white space.
pub fn trim_chars(s: &[char]) -> (trimmed: Vec<char>)
    ensures
        trimmed@ == trim_ws(s@),
{
    let n = s.len();
    let mut a: usize = 0;
    while a < n && is_white_space_char(s[a])
        invariant
            n == s@.len(),
            0 <= a <= n,
            forall|j: int| 0 <= j < a ==> is_white_space(#[trigger] s@[j]),
        decreases n - a,
    {
        a += 1;
    }
    proof {
        lemma_trim_start_at(s@, a as int);
    }
    let mut b: usize = n;
    while b > a && is_white_space_char(s[b - 1])
        invariant
            n == s@.len(),
            0 <= a <= b <= n,
            forall|j: int| b <= j < n ==> is_white_space(#[trigger] s@[j]),
        decreases b,
    {
        b -= 1;
    }
    proof {
        let t = s@.skip(a as int);
        assert forall|j: int| b - a <= j < t.len() implies is_white_space(#[trigger] t[j]) by {
            assert(t[j] == s@[j + a]);
        }
        if b > a {
            assert(t[b - a - 1] == s@[b - 1]);
        }
        lemma_trim_end_at(t, b - a);
        assert(t.take(b - a) =~= s@.subrange(a as int, b as int));
    }
    copy_range(s, a, b)
}

/// ASCII case-insensitive equality, as `str::eq_ignore_ascii_case` decides it
/// for these texts.
pub open spec fn eq_ignore_case(a: Seq<char>, b: Seq<char>) -> bool {
    a.len() == b.len() && forall|i: int| 0 <= i < a.len() ==> ascii_lower(#[trigger] a[i]) == ascii_lower(b[i])
}

/// ASCII lowercase of one character.
pub fn lower_ascii(c: char) -> (lower: char)
    ensures
        lower == ascii_lower(c),
{
    if 'A' <= c && c <= 'Z' { ((c as u32) + 32) as u8 as char } else { c }
}

/// ASCII case-insensitive comparison of two character sequences.
pub fn eq_ignore_ascii_case(a: &[char], b: &[char]) -> (same: bool)
    ensures
        same == eq_ignore_case(a@, b@),
{
    if a.len() != b.len() {
        return false;
    }
    let mut k: usize = 0;
    while k < a.len()
        invariant
            a@.len() == b@.len(),
            0 <= k <= a@.len(),
            forall|i: int| 0 <= i < k ==> ascii_lower(#[trigger] a@[i]) == ascii_lower(b@[i]),
        decreases a@.len() - k,
    {
        if lower_ascii(a[k]) != lower_ascii(b[k]) {
            return false;
        }
        k += 1;
    }
    true
}

} // verus!

verus! {

/// UTF-8 bytes of one character.
pub open spec fn utf8_width(c: char) -> nat {
    if (c as u32) <= 0x7f { 1 } else if (c as u32) <= 0x7ff { 2 } else if (c as u32) <= 0xffff { 3 } else { 4 }
}

/// UTF-8 bytes of a character sequence.
pub open spec fn utf8_len(s: Seq<char>) -> nat
    decreases s.len(),
{
    if s.len() == 0 { 0 } else { utf8_width(s[0]) + utf8_len(s.drop_first()) }
}

proof fn lemma_utf8_len_suffix(s: Seq<char>, k: int)
    requires
        0 <= k <= s.len(),
    ensures
        utf8_len(s.skip(k)) <= utf8_len(s),
    decreases k,
{
    if k > 0 {
        lemma_utf8_len_suffix(s.drop_first(), k - 1);
        assert(s.drop_first().skip(k - 1) =~= s.skip(k));
    } else {
        assert(s.skip(0) =~= s);
    }
}

/// The UTF-8 length of the characters when it is at most `limit`.
pub fn utf8_len_within(s: &[char], limit: usize) -> (len: Option<usize>)
    ensures
        len is Some <==> utf8_len(s@) <= limit,
        len matches Some(n) ==> n == utf8_len(s@),
{
    let mut acc: usize = 0;
    let mut k: usize = s.len();
    while k > 0
        invariant
            0 <= k <= s@.len(),
            acc == utf8_len(s@.skip(k as int)),
            acc <= limit,
        decreases k,
    {
        let c = s[k - 1];
        let code = c as u32;
        let width: usize = if code <= 0x7f { 1 } else if code <= 0x7ff { 2 } else if code <= 0xffff { 3 } else { 4 };
        proof {
            assert(s@.skip(k - 1).drop_first() =~= s@.skip(k as int));
        }
        if width > limit - acc {
            proof {
                lemma_utf8_len_suffix(s@, k - 1);
            }
            return None;
        }
        acc = acc + width;
        k -= 1;
    }
    proof {
        assert(s@.skip(0) =~= s@);
    }
    Some(acc)
}

} // verus!

verus! {

/// `i` is the last position of `c` in `s`.
pub open spec fn is_last_index(s: Seq<char>, c: char, i: int) -> bool {
    0 <= i < s.len() && s[i] == c && forall|j: int| i < j < s.len() ==> s[j] != c
}

/// The text after the last `c`, or all of it when `c` does not occur.
pub open spec fn after_last(s: Seq<char>, c: char) -> Seq<char> {
    if exists|i: int| is_last_index(s, c, i) {
        s.skip((choose|i: int| is_last_index(s, c, i)) + 1)
    } else {
        s
    }
}

/// The characters after the last `c` (all of them when there is none).
pub fn after_last_char(s: &[char], c: char) -> (tail: Vec<char>)
    ensures
        tail@ == after_last(s@, c),
{
    let n = s.len();
    let mut k: usize = n;
    while k > 0
        invariant
            n == s@.len(),
            0 <= k <= n,
            forall|j: int| k <= j < n ==> s@[j] != c,
        decreases k,
    {
        if s[k - 1] == c {
            proof {
                assert(is_last_index(s@, c, k - 1));
                let i = choose|i: int| is_last_index(s@, c, i);
                if i < k - 1 {
                    assert(s@[k - 1] != c);
                } else if i > k - 1 {
                    assert(s@[i] != c);
                }
                assert(s@.subrange(k as int, n as int) =~= s@.skip(k as int));
            }
            return copy_range(s, k, n);
        }
        k -= 1;
    }
    proof {
        assert forall|i: int| !is_last_index(s@, c, i) by {
            if 0 <= i < n {
                assert(s@[i] != c);
            }
        }
        assert(s@.subrange(0, n as int) =~= s@);
    }
    copy_range(s, 0, n)
}


/// Decimal digits of a number.
pub open spec fn decimal(n: nat) -> Seq<char>
    decreases n,
{
    if n < 10 {
        seq![((n + 0x30) as u32) as char]
    } else {
        decimal(n / 10).push((((n % 10) + 0x30) as u32) as char)
    }
}

/// Appends the decimal digits of `n`.
pub fn push_decimal(out: &mut Vec<char>, n: u64)
    ensures
        final(out)@ == old(out)@ + decimal(n as nat),
    decreases n,
{
    if n >= 10 {
        push_decimal(out, n / 10);
    }
    let d = (n % 10) as u8 + 0x30;
    out.push(d as char);
    proof {
        if n >= 10 {
            assert(old(out)@ + decimal(n as nat) =~= old(out)@ + decimal((n / 10) as nat) + seq![(((n % 10) + 0x30) as u32) as char]);
        } else {
            assert(old(out)@ + decimal(n as nat) =~= old(out)@.push(((n + 0x30) as u32) as char));
        }
        assert(d as char == (((n % 10) + 0x30) as u32) as char);
    }
}


/// Whether two texts hold the same characters.
pub fn same_text(a: &str, b: &str) -> (same: bool)
    ensures
        same == (a@ == b@),
{
    let x = chars_of(a);
    let y = chars_of(b);
    if x.len() != y.len() {
        return false;
    }
    let mut i: usize = 0;
    while i < x.len()
        invariant
            x@ == a@,
            y@ == b@,
            x@.len() == y@.len(),
            0 <= i <= x@.len(),
            forall|k: int| 0 <= k < i ==> x@[k] == y@[k],
        decreases x@.len() - i,
    {
        if x[i] != y[i] {
            return false;
        }
        i += 1;
    }
    proof {
        assert(x@ =~= y@);
    }
    true
}

} // verus!
