//! Command arguments given as text: references by index or by name, and
//! weights.

use vstd::prelude::*;
use vstd::string::StrSliceExecFns;

verus! {

/// A reference to a program, a block or an exercise: a number is a 1-based
/// position in display order, anything else an exact name.
#[derive(Clone, Debug, PartialEq, Eq)]
pub enum Reference {
    Index(i64),
    Name(String),
}

/// The view of a [`Reference`].
pub enum ReferenceView {
    Index(i64),
    Name(Seq<char>),
}

impl View for Reference {
    type V = ReferenceView;

    open spec fn view(&self) -> ReferenceView {
        match self {
            Reference::Index(n) => ReferenceView::Index(*n),
            Reference::Name(s) => ReferenceView::Name(s@),
        }
    }
}

/// What a set was loaded with.
#[derive(Clone, Copy, Debug, PartialEq, Eq, Structural)]
pub enum Load {
    Bodyweight,
    /// Grams.
    Weighted(u32),
}

/// Whether a character is a decimal digit.
pub open spec fn is_digit(c: char) -> bool {
    '0' <= c <= '9'
}

/// The value of a decimal digit.
pub open spec fn digit_value(c: char) -> nat {
    (c as int - '0' as int) as nat
}

/// Whether a text holds decimal digits only.
pub open spec fn all_digits(s: Seq<char>) -> bool {
    forall|i: int| 0 <= i < s.len() ==> is_digit(#[trigger] s[i])
}

/// The number that a sequence of decimal digits writes.
pub open spec fn digits_value(s: Seq<char>) -> nat
    decreases s.len(),
{
    if s.len() == 0 {
        0
    } else {
        digits_value(s.drop_last()) * 10 + digit_value(s.last())
    }
}

/// The integer that `s` writes: an optional sign and at least one decimal
/// digit, with a value that a 64-bit signed integer holds.
pub open spec fn parse_integer(s: Seq<char>) -> Option<int> {
    let signed = s.len() > 0 && (s[0] == '-' || s[0] == '+');
    let body = if signed {
        s.skip(1)
    } else {
        s
    };
    let value = if s.len() > 0 && s[0] == '-' {
        -(digits_value(body) as int)
    } else {
        digits_value(body) as int
    };
    if body.len() > 0 && all_digits(body) && i64::MIN <= value <= i64::MAX {
        Some(value)
    } else {
        None
    }
}

/// How a reference is read: as an index where the text is an integer, as a
/// name otherwise.
pub open spec fn reference_of(s: Seq<char>) -> ReferenceView {
    match parse_integer(s) {
        Some(n) => ReferenceView::Index(n as i64),
        None => ReferenceView::Name(s),
    }
}

/// Whether `s` is the bodyweight word, in any letter case.
pub open spec fn is_bodyweight_word(s: Seq<char>) -> bool {
    s.len() == 2 && (s[0] == 'b' || s[0] == 'B') && (s[1] == 'w' || s[1] == 'W')
}

/// The position of the first decimal point at or after `i`, or the length.
pub open spec fn point_from(s: Seq<char>, i: int) -> int
    decreases s.len() - i,
{
    if i < 0 || i >= s.len() {
        s.len() as int
    } else if s[i] == '.' {
        i
    } else {
        point_from(s, i + 1)
    }
}

/// The value of the `i`-th digit after the decimal point, zero where the
/// fraction has no such digit.
pub open spec fn fraction_digit(frac: Seq<char>, i: int) -> nat {
    if 0 <= i < frac.len() {
        digit_value(frac[i])
    } else {
        0
    }
}

/// The thousandths that the digits after the decimal point write; digits past
/// the third are dropped.
pub open spec fn fraction_thousandths(frac: Seq<char>) -> nat {
    fraction_digit(frac, 0) * 100 + fraction_digit(frac, 1) * 10 + fraction_digit(frac, 2)
}

/// The grams that a decimal number of kilograms writes: digits, optionally a
/// point and more digits, with at least one digit in all, and a value that 32
/// bits hold.
pub open spec fn parse_grams(s: Seq<char>) -> Option<u32> {
    let p = point_from(s, 0);
    let whole = s.subrange(0, p);
    let frac = if p < s.len() {
        s.subrange(p + 1, s.len() as int)
    } else {
        Seq::<char>::empty()
    };
    let grams = digits_value(whole) * 1000 + fraction_thousandths(frac);
    if all_digits(whole) && all_digits(frac) && whole.len() + frac.len() > 0 && grams <= u32::MAX {
        Some(grams as u32)
    } else {
        None
    }
}

/// How a weight argument is read: the bodyweight word, or a decimal number of
/// kilograms.
pub open spec fn parse_load(s: Seq<char>) -> Option<Load> {
    if is_bodyweight_word(s) {
        Some(Load::Bodyweight)
    } else {
        match parse_grams(s) {
            Some(g) => Some(Load::Weighted(g)),
            None => None,
        }
    }
}

/// A longer run of digits writes a number that is no smaller.
pub proof fn lemma_digits_value_prefix(s: Seq<char>, n: int)
    requires
        0 <= n <= s.len(),
    ensures
        digits_value(s.subrange(0, n)) <= digits_value(s),
    decreases s.len() - n,
{
    if n == s.len() {
        assert(s.subrange(0, n) =~= s);
    } else {
        lemma_digits_value_prefix(s, n + 1);
        let t = s.subrange(0, n + 1);
        assert(t.drop_last() =~= s.subrange(0, n));
        assert(digits_value(t) == digits_value(s.subrange(0, n)) * 10 + digit_value(t.last()));
    }
}

fn digit_of(c: char) -> (d: Option<u8>)
    ensures
        match d {
            Some(v) => is_digit(c) && v == digit_value(c) && v <= 9,
            None => !is_digit(c),
        },
{
    if c >= '0' && c <= '9' {
        Some(((c as u32) - ('0' as u32)) as u8)
    } else {
        None
    }
}

/// Reads the decimal digits of `s` from `from` to `to`. The result is `None`
/// where a character is no digit or the value exceeds `limit`.
fn read_digits(s: &str, from: usize, to: usize, limit: u128) -> (r: Option<u128>)
    requires
        from <= to <= s@.len(),
        limit <= u128::MAX / 16,
    ensures
        match r {
            Some(v) => all_digits(s@.subrange(from as int, to as int)) && v == digits_value(
                s@.subrange(from as int, to as int),
            ) && v <= limit,
            None => !all_digits(s@.subrange(from as int, to as int)) || digits_value(
                s@.subrange(from as int, to as int),
            ) > limit,
        },
{
    let ghost body = s@.subrange(from as int, to as int);
    let mut acc: u128 = 0;
    let mut i: usize = from;
    while i < to
        invariant
            from <= i <= to <= s@.len(),
            body == s@.subrange(from as int, to as int),
            all_digits(body.subrange(0, i - from)),
            acc == digits_value(body.subrange(0, i - from)),
            acc <= limit,
            limit <= u128::MAX / 16,
        decreases to - i,
    {
        let c = s.get_char(i);
        let ghost prefix = body.subrange(0, i - from);
        let ghost next = body.subrange(0, i + 1 - from);
        proof {
            assert(next.drop_last() =~= prefix);
            assert(next.last() == c);
        }
        match digit_of(c) {
            None => {
                proof {
                    assert(body[i - from] == c);
                }
                return None;
            },
            Some(d) => {
                let v: u128 = acc * 10 + d as u128;
                if v > limit {
                    proof {
                        assert(all_digits(body) ==> digits_value(body) > limit) by {
                            lemma_digits_value_prefix(body, i + 1 - from);
                        }
                    }
                    return None;
                }
                proof {
                    assert forall|j: int| 0 <= j < next.len() implies
                        is_digit(#[trigger] next[j]) by {
                        if j < prefix.len() {
                            assert(next[j] == prefix[j]);
                        }
                    }
                }
                acc = v;
            },
        }
        i += 1;
    }
    proof {
        assert(body.subrange(0, to - from) =~= body);
    }
    Some(acc)
}

/// Whether the characters of `s` from `from` to `to` are all decimal digits.
fn only_digits(s: &str, from: usize, to: usize) -> (yes: bool)
    requires
        from <= to <= s@.len(),
    ensures
        yes == all_digits(s@.subrange(from as int, to as int)),
{
    let ghost body = s@.subrange(from as int, to as int);
    let mut i: usize = from;
    while i < to
        invariant
            from <= i <= to <= s@.len(),
            body == s@.subrange(from as int, to as int),
            forall|j: int| 0 <= j < i - from ==> is_digit(#[trigger] body[j]),
        decreases to - i,
    {
        let c = s.get_char(i);
        if digit_of(c).is_none() {
            proof {
                assert(body[i - from] == c);
            }
            return false;
        }
        proof {
            assert(body[i - from] == c);
        }
        i += 1;
    }
    true
}

/// Reads an integer: an optional sign and decimal digits.
pub fn parse_i64(s: &str) -> (r: Option<i64>)
    ensures
        match r {
            Some(n) => parse_integer(s@) == Some(n as int),
            None => parse_integer(s@) is None,
        },
{
    let len = s.unicode_len();
    if len == 0 {
        return None;
    }
    let first = s.get_char(0);
    let negative = first == '-';
    let start: usize = if first == '-' || first == '+' {
        1
    } else {
        0
    };
    proof {
        assert(s@.skip(1) =~= s@.subrange(1, len as int));
        assert(s@ =~= s@.subrange(0, len as int));
    }
    if start == len {
        return None;
    }
    let limit: u128 = if negative {
        0x8000_0000_0000_0000
    } else {
        0x7fff_ffff_ffff_ffff
    };
    match read_digits(s, start, len, limit) {
        None => None,
        Some(v) => {
            if negative {
                if v == 0x8000_0000_0000_0000 {
                    Some(i64::MIN)
                } else {
                    Some(-(v as i64))
                }
            } else {
                Some(v as i64)
            }
        },
    }
}

/// Reads a reference: an integer is an index, anything else a name.
pub fn parse_reference(s: &str) -> (r: Reference)
    ensures
        r@ == reference_of(s@),
{
    match parse_i64(s) {
        Some(n) => Reference::Index(n),
        None => Reference::Name(s.to_owned()),
    }
}

fn find_point(s: &str, len: usize) -> (p: usize)
    requires
        len == s@.len(),
    ensures
        p == point_from(s@, 0),
        p <= len,
{
    let mut i: usize = 0;
    while i < len
        invariant
            i <= len,
            len == s@.len(),
            point_from(s@, 0) == point_from(s@, i as int),
        decreases len - i,
    {
        if s.get_char(i) == '.' {
            return i;
        }
        i += 1;
    }
    len
}

fn fraction_digit_at(s: &str, from: usize, len: usize, i: usize) -> (d: u64)
    requires
        from <= len,
        len == s@.len(),
        i < 3,
        all_digits(s@.subrange(from as int, len as int)),
    ensures
        d == fraction_digit(s@.subrange(from as int, len as int), i as int),
        d <= 9,
{
    if i < len - from {
        let c = s.get_char(from + i);
        proof {
            assert(s@.subrange(from as int, len as int)[i as int] == c);
        }
        match digit_of(c) {
            Some(d) => d as u64,
            None => 0,
        }
    } else {
        0
    }
}

/// Reads a decimal number of kilograms as whole grams.
pub fn parse_weight_grams(s: &str) -> (r: Option<u32>)
    ensures
        r == parse_grams(s@),
{
    let len = s.unicode_len();
    let p = find_point(s, len);
    let frac_from: usize = if p < len {
        p + 1
    } else {
        len
    };
    let ghost whole = s@.subrange(0, p as int);
    let ghost frac = s@.subrange(frac_from as int, len as int);
    proof {
        if p >= len {
            assert(frac =~= Seq::<char>::empty());
        }
    }
    if p + (len - frac_from) == 0 {
        return None;
    }
    let whole_value = match read_digits(s, 0, p, 4_294_967) {
        None => {
            return None;
        },
        Some(v) => v,
    };
    if !only_digits(s, frac_from, len) {
        return None;
    }
    let d0 = fraction_digit_at(s, frac_from, len, 0);
    let d1 = fraction_digit_at(s, frac_from, len, 1);
    let d2 = fraction_digit_at(s, frac_from, len, 2);
    let grams: u128 = whole_value * 1000 + (d0 * 100 + d1 * 10 + d2) as u128;
    if grams > 0xffff_ffff {
        None
    } else {
        Some(grams as u32)
    }
}

/// Reads a weight argument: the bodyweight word or a decimal number of
/// kilograms.
pub fn parse_weight(s: &str) -> (r: Option<Load>)
    ensures
        r == parse_load(s@),
{
    let len = s.unicode_len();
    if len == 2 {
        let a = s.get_char(0);
        let b = s.get_char(1);
        if (a == 'b' || a == 'B') && (b == 'w' || b == 'W') {
            return Some(Load::Bodyweight);
        }
    }
    match parse_weight_grams(s) {
        Some(g) => Some(Load::Weighted(g)),
        None => None,
    }
}

} // verus!
