//! Small text utilities: trimming, and the printable length of coloured text.

use vstd::prelude::*;
use vstd::string::{StrSliceExecFns, StringSliceAdditionalSpecFns};

verus! {

/// Whether a character is white space: the code points with the Unicode
/// property `White_Space`.
pub open spec fn is_space(c: char) -> bool {
    ('\u{9}' <= c <= '\u{d}') || c == ' ' || c == '\u{85}' || c == '\u{a0}' || c == '\u{1680}' || (
    '\u{2000}' <= c <= '\u{200a}') || c == '\u{2028}' || c == '\u{2029}' || c == '\u{202f}' || c
        == '\u{205f}' || c == '\u{3000}'
}

/// The first position at or after `i` that holds no white space, or the
/// length.
pub open spec fn trim_start_at(s: Seq<char>, i: int) -> int
    decreases s.len() - i,
{
    if i < 0 || i >= s.len() {
        s.len() as int
    } else if !is_space(s[i]) {
        i
    } else {
        trim_start_at(s, i + 1)
    }
}

/// The end of the text between `lo` and `n` once trailing white space is cut.
pub open spec fn trim_end_at(s: Seq<char>, lo: int, n: int) -> int
    decreases n,
{
    if n <= 0 || n <= lo || n > s.len() {
        lo
    } else if !is_space(s[n - 1]) {
        n
    } else {
        trim_end_at(s, lo, n - 1)
    }
}

/// The text without the white space at its start and at its end.
pub open spec fn trimmed(s: Seq<char>) -> Seq<char> {
    let lo = trim_start_at(s, 0);
    s.subrange(lo, trim_end_at(s, lo, s.len() as int))
}

/// Whether a character is white space.
pub fn is_whitespace(c: char) -> (yes: bool)
    ensures
        yes == is_space(c),
{
    ('\u{9}' <= c && c <= '\u{d}') || c == ' ' || c == '\u{85}' || c == '\u{a0}' || c == '\u{1680}'
        || ('\u{2000}' <= c && c <= '\u{200a}') || c == '\u{2028}' || c == '\u{2029}' || c
        == '\u{202f}' || c == '\u{205f}' || c == '\u{3000}'
}

/// The text without the white space at its start and at its end.
pub fn trim(s: &str) -> (t: String)
    ensures
        t@ == trimmed(s@),
{
    let len = s.unicode_len();
    let mut lo: usize = 0;
    while lo < len && is_whitespace(s.get_char(lo))
        invariant
            lo <= len,
            len == s@.len(),
            trim_start_at(s@, 0) == trim_start_at(s@, lo as int),
        decreases len - lo,
    {
        lo += 1;
    }
    let mut hi: usize = len;
    while hi > lo && is_whitespace(s.get_char(hi - 1))
        invariant
            lo <= hi <= len,
            len == s@.len(),
            trim_end_at(s@, lo as int, len as int) == trim_end_at(s@, lo as int, hi as int),
        decreases hi,
    {
        hi -= 1;
    }
    s.substring_char(lo, hi).to_owned()
}

/// The lower-case form of an ASCII capital, and any other character as it is.
pub open spec fn ascii_lower(c: char) -> char {
    if 'A' <= c <= 'Z' {
        ((c as u8) + 32) as char
    } else {
        c
    }
}

/// The text with every ASCII capital in lower case.
pub open spec fn ascii_lowercase(s: Seq<char>) -> Seq<char> {
    Seq::new(s.len(), |i: int| ascii_lower(s[i]))
}

/// `str::to_ascii_lowercase` of the standard library: a copy of the text in
/// which the letters 'A' to 'Z' are mapped to 'a' to 'z' and every other
/// character is unchanged.
#[verifier::external_body]
pub(crate) fn to_ascii_lowercase(s: &str) -> (lower: String)
    ensures
        lower@ == ascii_lowercase(s@),
{
    s.to_ascii_lowercase()
}

/// Whether a character is a control character: the code points of the
/// Unicode category `Cc`.
pub open spec fn is_control(c: char) -> bool {
    c <= '\u{1f}' || ('\u{7f}' <= c <= '\u{9f}')
}

/// Whether a text holds a control character.
pub open spec fn has_control(s: Seq<char>) -> bool {
    exists|i: int| 0 <= i < s.len() && is_control(#[trigger] s[i])
}

/// Whether the text holds a control character.
pub fn has_control_chars(s: &str) -> (yes: bool)
    ensures
        yes == has_control(s@),
{
    let len = s.unicode_len();
    let mut i: usize = 0;
    while i < len
        invariant
            i <= len,
            len == s@.len(),
            forall|j: int| 0 <= j < i ==> !is_control(#[trigger] s@[j]),
        decreases len - i,
    {
        let c = s.get_char(i);
        if c <= '\u{1f}' || ('\u{7f}' <= c && c <= '\u{9f}') {
            assert(is_control(s@[i as int]));
            return true;
        }
        i += 1;
    }
    false
}

/// Whether two texts hold the same characters.
pub fn str_eq(a: &str, b: &str) -> (same: bool)
    ensures
        same == (a@ == b@),
{
    let len = a.unicode_len();
    if b.unicode_len() != len {
        return false;
    }
    let mut i: usize = 0;
    while i < len
        invariant
            i <= len,
            len == a@.len(),
            len == b@.len(),
            forall|j: int| 0 <= j < i ==> a@[j] == b@[j],
        decreases len - i,
    {
        if a.get_char(i) != b.get_char(i) {
            return false;
        }
        i += 1;
    }
    assert(a@ =~= b@);
    true
}

/// Whether `s` begins with `prefix`.
pub open spec fn has_prefix(s: Seq<char>, prefix: Seq<char>) -> bool {
    prefix.len() <= s.len() && s.subrange(0, prefix.len() as int) == prefix
}

/// Whether `s` begins with `prefix`.
pub fn starts_with(s: &str, prefix: &str) -> (yes: bool)
    ensures
        yes == has_prefix(s@, prefix@),
{
    let n = prefix.unicode_len();
    if s.unicode_len() < n {
        return false;
    }
    let mut i: usize = 0;
    while i < n
        invariant
            i <= n,
            n == prefix@.len(),
            n <= s@.len(),
            forall|j: int| 0 <= j < i ==> s@[j] == prefix@[j],
        decreases n - i,
    {
        if s.get_char(i) != prefix.get_char(i) {
            assert(s@.subrange(0, n as int)[i as int] != prefix@[i as int]);
            return false;
        }
        i += 1;
    }
    assert(s@.subrange(0, n as int) =~= prefix@);
    true
}

/// The position of the first `sep` at or after `i`, or the length.
pub open spec fn find_from(s: Seq<char>, sep: char, i: int) -> int
    decreases s.len() - i,
{
    if i < 0 || i >= s.len() {
        s.len() as int
    } else if s[i] == sep {
        i
    } else {
        find_from(s, sep, i + 1)
    }
}

/// The pieces of the text from `i` on between the occurrences of `sep`; the
/// text without an occurrence is one piece.
pub open spec fn split_from(s: Seq<char>, sep: char, i: int) -> Seq<Seq<char>>
    decreases s.len() - i,
{
    if i < 0 || i > s.len() {
        Seq::empty()
    } else {
        let p = find_from(s, sep, i);
        if p >= s.len() || p < i {
            seq![s.subrange(i, s.len() as int)]
        } else {
            seq![s.subrange(i, p)] + split_from(s, sep, p + 1)
        }
    }
}

/// The pieces of the text between the occurrences of `sep`.
pub open spec fn split_on(s: Seq<char>, sep: char) -> Seq<Seq<char>> {
    split_from(s, sep, 0)
}

/// The position of the first `sep` at or after `from`, or the length.
pub fn find_char(s: &str, sep: char, from: usize) -> (p: usize)
    requires
        from <= s@.len(),
    ensures
        p == find_from(s@, sep, from as int),
        from <= p <= s@.len(),
{
    let len = s.unicode_len();
    let mut i: usize = from;
    while i < len
        invariant
            from <= i <= len,
            len == s@.len(),
            find_from(s@, sep, from as int) == find_from(s@, sep, i as int),
        decreases len - i,
    {
        if s.get_char(i) == sep {
            return i;
        }
        i += 1;
    }
    len
}

/// The pieces of the text between the occurrences of `sep`.
pub fn split(s: &str, sep: char) -> (pieces: Vec<String>)
    ensures
        pieces.deep_view() == split_on(s@, sep),
{
    let len = s.unicode_len();
    let mut pieces: Vec<String> = Vec::new();
    let mut start: usize = 0;
    loop
        invariant_except_break
            pieces.deep_view() + split_from(s@, sep, start as int) == split_on(s@, sep),
        invariant
            start <= len,
            len == s@.len(),
        ensures
            pieces.deep_view() == split_on(s@, sep),
        decreases len - start,
    {
        let ghost before = pieces.deep_view();
        let p = find_char(s, sep, start);
        pieces.push(s.substring_char(start, p).to_owned());
        assert(pieces.deep_view() =~= before + seq![s@.subrange(start as int, p as int)]);
        if p >= len {
            assert(split_from(s@, sep, start as int) =~= seq![
                s@.subrange(start as int, len as int),
            ]);
            break;
        }
        assert(before + (seq![s@.subrange(start as int, p as int)] + split_from(
            s@,
            sep,
            p + 1,
        )) =~= (before + seq![s@.subrange(start as int, p as int)]) + split_from(s@, sep, p + 1));
        start = p + 1;
    }
    pieces
}

/// Whether `a` comes before `b` in the order of the code points from
/// position `i` on, the two texts being equal before `i`.
pub open spec fn less_from(a: Seq<char>, b: Seq<char>, i: int) -> bool
    decreases b.len() - i,
{
    if i < 0 || i >= b.len() {
        false
    } else if i >= a.len() {
        true
    } else if a[i] != b[i] {
        a[i] < b[i]
    } else {
        less_from(a, b, i + 1)
    }
}

/// Whether `a` comes before `b` in the order of the code points: at the first
/// place where they differ `a` has the lower code point, or `a` is the
/// shorter where they do not differ.
pub open spec fn text_less(a: Seq<char>, b: Seq<char>) -> bool {
    less_from(a, b, 0)
}

/// Whether `a` comes before `b` in the order of the code points.
pub fn str_less(a: &str, b: &str) -> (less: bool)
    ensures
        less == text_less(a@, b@),
{
    let la = a.unicode_len();
    let lb = b.unicode_len();
    let mut i: usize = 0;
    while i < lb
        invariant
            i <= lb,
            la == a@.len(),
            lb == b@.len(),
            text_less(a@, b@) == less_from(a@, b@, i as int),
        decreases lb - i,
    {
        if i >= la {
            return true;
        }
        let x = a.get_char(i);
        let y = b.get_char(i);
        if x != y {
            return x < y;
        }
        i += 1;
    }
    false
}

/// Whether the first `n` bytes end within an escape sequence: a sequence runs
/// from the escape byte to the next `m`.
pub open spec fn in_escape(bytes: Seq<u8>, n: int) -> bool
    decreases n,
{
    if n <= 0 {
        false
    } else if in_escape(bytes, n - 1) {
        bytes[n - 1] != 0x6d
    } else {
        bytes[n - 1] == 0x1b
    }
}

/// The number of the first `n` bytes that lie outside escape sequences.
pub open spec fn plain_count(bytes: Seq<u8>, n: int) -> nat
    decreases n,
{
    if n <= 0 {
        0
    } else if !in_escape(bytes, n - 1) && bytes[n - 1] != 0x1b {
        plain_count(bytes, n - 1) + 1
    } else {
        plain_count(bytes, n - 1)
    }
}

/// The length of a text in bytes without its colour codes: the bytes from an
/// escape byte to the next `m` are not counted.
pub fn plain_len(s: &str) -> (count: usize)
    ensures
        count == plain_count(s.spec_bytes(), s.spec_bytes().len() as int),
{
    let bytes = s.as_bytes();
    let mut count: usize = 0;
    let mut escape = false;
    let mut i: usize = 0;
    while i < bytes.len()
        invariant
            i <= bytes.len(),
            bytes@ == s.spec_bytes(),
            escape == in_escape(bytes@, i as int),
            count == plain_count(bytes@, i as int),
            count <= i,
        decreases bytes.len() - i,
    {
        let b = bytes[i];
        if escape {
            if b == 0x6d {
                escape = false;
            }
        } else if b == 0x1b {
            escape = true;
        } else {
            count += 1;
        }
        i += 1;
    }
    count
}

/// A copy of a text that may be missing.
pub fn clone_text(s: &Option<String>) -> (c: Option<String>)
    ensures
        c.deep_view() == s.deep_view(),
{
    match s {
        Some(s) => Some(s.clone()),
        None => None,
    }
}

/// No text comes before a text that comes before it.
pub proof fn lemma_less_asymmetric(a: Seq<char>, b: Seq<char>, i: int)
    requires
        0 <= i,
        less_from(a, b, i),
    ensures
        !less_from(b, a, i),
    decreases b.len() - i,
{
    if i < a.len() && i < b.len() && a[i] == b[i] {
        lemma_less_asymmetric(a, b, i + 1);
    }
}

/// A text that comes before a second comes before every third that does not
/// come before the second.
pub proof fn lemma_less_then_not_greater(a: Seq<char>, b: Seq<char>, c: Seq<char>, i: int)
    requires
        0 <= i,
        less_from(a, b, i),
        !less_from(c, b, i),
    ensures
        less_from(a, c, i),
    decreases b.len() - i,
{
    assert(i < b.len());
    assert(i < c.len());
    if i < a.len() {
        if a[i] == b[i] && b[i] == c[i] {
            lemma_less_then_not_greater(a, b, c, i + 1);
        } else if a[i] == b[i] {
            assert(b[i] < c[i]);
        } else {
            assert(a[i] < b[i]);
            assert(b[i] <= c[i]);
        }
    }
}

/// Two texts neither of which comes before the other are one text.
pub proof fn lemma_less_total(a: Seq<char>, b: Seq<char>, i: int)
    requires
        0 <= i <= a.len(),
        i <= b.len(),
        forall|j: int| 0 <= j < i ==> a[j] == b[j],
        !less_from(a, b, i),
        !less_from(b, a, i),
    ensures
        a == b,
    decreases b.len() - i,
{
    if i < a.len() && i < b.len() {
        lemma_less_total(a, b, i + 1);
    } else {
        assert(a =~= b);
    }
}

} // verus!
