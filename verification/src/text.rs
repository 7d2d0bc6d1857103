//! Decimal text handling for sysfs counter attributes: a counter file holds
//! the decimal digits of an unsigned value with surrounding whitespace, and
//! labels embed decimal indices. Parsing and formatting are verified against
//! one spec of the decimal representation.

use vstd::prelude::*;

verus! {

pub open spec fn is_digit(c: char) -> bool {
    '0' <= c && c <= '9'
}

pub open spec fn digit_val(c: char) -> int {
    c as int - '0' as int
}

pub open spec fn digit_char(d: int) -> char {
    (48 + d) as char
}

pub open spec fn all_digits(s: Seq<char>) -> bool {
    forall|i: int| 0 <= i < s.len() ==> is_digit(#[trigger] s[i])
}

/// The value of a digit string, most significant digit first.
pub open spec fn dec_value(s: Seq<char>) -> int
    decreases s.len(),
{
    if s.len() == 0 {
        0
    } else {
        dec_value(s.drop_last()) * 10 + digit_val(s.last())
    }
}

/// The canonical digit string of a non-negative value: no leading zeros
/// except for the value zero itself.
pub open spec fn dec_digits(n: int) -> Seq<char>
    decreases n,
{
    if n < 10 {
        seq![digit_char(n)]
    } else {
        dec_digits(n / 10).push(digit_char(n % 10))
    }
}

/// The whitespace that sysfs attribute values are padded with.
pub open spec fn is_space(c: char) -> bool {
    c == ' ' || c == '\n' || c == '\t' || c == '\r'
}

/// How many whitespace characters the text starts with.
pub open spec fn leading_spaces(s: Seq<char>) -> int
    decreases s.len(),
{
    if s.len() == 0 {
        0
    } else if !is_space(s[0]) {
        0
    } else {
        1 + leading_spaces(s.drop_first())
    }
}

/// How many whitespace characters the text ends with.
pub open spec fn trailing_spaces(s: Seq<char>) -> int
    decreases s.len(),
{
    if s.len() == 0 {
        0
    } else if !is_space(s.last()) {
        0
    } else {
        1 + trailing_spaces(s.drop_last())
    }
}

/// The text with leading and trailing whitespace removed.
pub open spec fn spec_trim(s: Seq<char>) -> Seq<char> {
    if leading_spaces(s) == s.len() {
        Seq::empty()
    } else {
        s.subrange(leading_spaces(s), s.len() - trailing_spaces(s))
    }
}

/// What parsing an attribute's text yields: the value of its digits once
/// trimmed, provided the trimmed text is non-empty, all digits, and in range.
pub open spec fn spec_parse_u64(s: Seq<char>) -> Option<u64> {
    let t = spec_trim(s);
    if t.len() > 0 && all_digits(t) && dec_value(t) <= u64::MAX {
        Some(dec_value(t) as u64)
    } else {
        None
    }
}

proof fn lemma_leading_spaces_bounds(s: Seq<char>)
    ensures
        0 <= leading_spaces(s) <= s.len(),
        forall|i: int| 0 <= i < leading_spaces(s) ==> is_space(#[trigger] s[i]),
        leading_spaces(s) < s.len() ==> !is_space(s[leading_spaces(s)]),
    decreases s.len(),
{
    if s.len() == 0 {
    } else if !is_space(s[0]) {
    } else {
        lemma_leading_spaces_bounds(s.drop_first());
        assert forall|i: int| 0 <= i < leading_spaces(s) implies is_space(#[trigger] s[i]) by {
            if i > 0 {
                assert(s.drop_first()[i - 1] == s[i]);
            }
        }
        if leading_spaces(s) < s.len() {
            assert(s.drop_first()[leading_spaces(s) - 1] == s[leading_spaces(s)]);
        }
    }
}

proof fn lemma_trailing_spaces_bounds(s: Seq<char>)
    ensures
        0 <= trailing_spaces(s) <= s.len(),
        forall|i: int| s.len() - trailing_spaces(s) <= i < s.len() ==> is_space(#[trigger] s[i]),
        trailing_spaces(s) < s.len() ==> !is_space(s[s.len() - trailing_spaces(s) - 1]),
    decreases s.len(),
{
    if s.len() == 0 {
    } else if !is_space(s.last()) {
    } else {
        lemma_trailing_spaces_bounds(s.drop_last());
        assert forall|i: int| s.len() - trailing_spaces(s) <= i < s.len() implies is_space(
            #[trigger] s[i],
        ) by {
            if i < s.len() - 1 {
                assert(s.drop_last()[i] == s[i]);
            }
        }
        if trailing_spaces(s) < s.len() {
            assert(s.drop_last()[s.len() - trailing_spaces(s) - 1] == s[s.len() - trailing_spaces(
                s,
            ) - 1]);
        }
    }
}

/// Strips leading and trailing whitespace.
pub fn trim(s: &str) -> (r: String)
    ensures
        r@ == spec_trim(s@),
{
    proof {
        lemma_leading_spaces_bounds(s@);
        lemma_trailing_spaces_bounds(s@);
    }
    let n = s.unicode_len();
    let mut f: usize = 0;
    while f < n && is_space_exec(s.get_char(f))
        invariant
            n == s@.len(),
            0 <= f <= n,
            forall|i: int| 0 <= i < f ==> is_space(#[trigger] s@[i]),
        decreases n - f,
    {
        f = f + 1;
    }
    proof {
        lemma_space_prefix(s@, f as int);
    }
    if f == n {
        return String::new();
    }
    let mut e: usize = n;
    while e > f && is_space_exec(s.get_char(e - 1))
        invariant
            n == s@.len(),
            f < n,
            !is_space(s@[f as int]),
            f < e <= n || e == f,
            forall|i: int| e <= i < n ==> is_space(#[trigger] s@[i]),
        decreases e,
    {
        e = e - 1;
    }
    proof {
        assert(e > f);
        lemma_space_suffix(s@, e as int);
        assert(f as int == leading_spaces(s@));
        assert(n - e == trailing_spaces(s@));
    }
    s.substring_char(f, e).to_owned()
}

fn is_space_exec(c: char) -> (r: bool)
    ensures
        r == is_space(c),
{
    c == ' ' || c == '\n' || c == '\t' || c == '\r'
}

/// A whitespace prefix that stops at a non-space (or at the end) is exactly
/// the leading whitespace run.
proof fn lemma_space_prefix(s: Seq<char>, f: int)
    requires
        0 <= f <= s.len(),
        forall|i: int| 0 <= i < f ==> is_space(#[trigger] s[i]),
        f < s.len() ==> !is_space(s[f]),
    ensures
        leading_spaces(s) == f,
    decreases s.len(),
{
    if s.len() == 0 {
    } else if f == 0 {
    } else {
        assert(is_space(s[0]));
        assert forall|i: int| 0 <= i < f - 1 implies is_space(#[trigger] s.drop_first()[i]) by {
            assert(s.drop_first()[i] == s[i + 1]);
        }
        if f - 1 < s.drop_first().len() {
            assert(s.drop_first()[f - 1] == s[f]);
        }
        lemma_space_prefix(s.drop_first(), f - 1);
    }
}

/// A whitespace suffix that stops at a non-space (or at the start) is exactly
/// the trailing whitespace run.
proof fn lemma_space_suffix(s: Seq<char>, e: int)
    requires
        0 <= e <= s.len(),
        forall|i: int| e <= i < s.len() ==> is_space(#[trigger] s[i]),
        e > 0 ==> !is_space(s[e - 1]),
    ensures
        trailing_spaces(s) == s.len() - e,
    decreases s.len(),
{
    if s.len() == 0 {
    } else if e == s.len() {
    } else {
        assert(is_space(s.last()));
        assert forall|i: int| e <= i < s.drop_last().len() implies is_space(
            #[trigger] s.drop_last()[i],
        ) by {
            assert(s.drop_last()[i] == s[i]);
        }
        if e > 0 {
            assert(s.drop_last()[e - 1] == s[e - 1]);
        }
        lemma_space_suffix(s.drop_last(), e);
    }
}

/// The value of one more digit appended to a digit prefix.
proof fn lemma_dec_value_step(t: Seq<char>, i: int)
    requires
        0 <= i < t.len(),
    ensures
        dec_value(t.take(i + 1)) == dec_value(t.take(i)) * 10 + digit_val(t[i]),
{
    assert(t.take(i + 1).drop_last() =~= t.take(i));
    assert(t.take(i + 1).last() == t[i]);
}

/// Digit values never shrink as digits are appended.
proof fn lemma_dec_value_monotonic(t: Seq<char>, i: int)
    requires
        0 <= i <= t.len(),
        all_digits(t),
    ensures
        dec_value(t.take(i)) <= dec_value(t),
        dec_value(t.take(i)) >= 0,
    decreases t.len() - i,
{
    if i == t.len() {
        assert(t.take(i) =~= t);
        lemma_dec_value_nonneg(t);
    } else {
        lemma_dec_value_step(t, i);
        lemma_dec_value_monotonic(t, i + 1);
        assert(is_digit(t[i]));
        lemma_dec_value_nonneg(t.take(i));
    }
}

proof fn lemma_dec_value_nonneg(t: Seq<char>)
    requires
        forall|i: int| 0 <= i < t.len() ==> is_digit(#[trigger] t[i]),
    ensures
        dec_value(t) >= 0,
    decreases t.len(),
{
    if t.len() > 0 {
        assert forall|i: int| 0 <= i < t.drop_last().len() implies is_digit(
            #[trigger] t.drop_last()[i],
        ) by {
            assert(t.drop_last()[i] == t[i]);
        }
        lemma_dec_value_nonneg(t.drop_last());
        assert(is_digit(t.last()));
    }
}

/// Parses the decimal value of an attribute's text: whitespace is trimmed,
/// and any other non-digit character, an empty text, or a value that does
/// not fit in 64 bits yields `None`.
pub fn parse_u64(s: &str) -> (r: Option<u64>)
    ensures
        r == spec_parse_u64(s@),
{
    let t = trim(s);
    let ghost tv = spec_trim(s@);
    let n = t.as_str().unicode_len();
    if n == 0 {
        return None;
    }
    let mut acc: u64 = 0;
    let mut i: usize = 0;
    while i < n
        invariant
            tv == spec_trim(s@),
            n == tv.len(),
            t@ == tv,
            0 < n,
            0 <= i <= n,
            forall|j: int| 0 <= j < i ==> is_digit(#[trigger] tv[j]),
            acc == dec_value(tv.take(i as int)),
        decreases n - i,
    {
        let c = t.as_str().get_char(i);
        if !(c >= '0' && c <= '9') {
            return None;
        }
        let d: u64 = (c as u32 as u64) - 48;
        assert(d == digit_val(tv[i as int]));
        proof {
            lemma_dec_value_step(tv, i as int);
        }
        let shifted = match acc.checked_mul(10) {
            Some(x) => x,
            None => {
                proof {
                    lemma_overflow_stays(tv, i as int);
                }
                return None;
            },
        };
        acc = match shifted.checked_add(d) {
            Some(x) => x,
            None => {
                proof {
                    lemma_overflow_stays(tv, i as int);
                }
                return None;
            },
        };
        i = i + 1;
    }
    proof {
        assert(tv.take(n as int) =~= tv);
    }
    Some(acc)
}

/// Once a digit prefix exceeds the 64-bit range, the whole digit string does.
proof fn lemma_overflow_stays(t: Seq<char>, i: int)
    requires
        0 <= i < t.len(),
        forall|j: int| 0 <= j < i ==> is_digit(#[trigger] t[j]),
        is_digit(t[i]),
        dec_value(t.take(i)) * 10 + digit_val(t[i]) > u64::MAX,
    ensures
        all_digits(t) ==> dec_value(t) > u64::MAX,
{
    if all_digits(t) {
        lemma_dec_value_step(t, i);
        lemma_dec_value_monotonic(t, i + 1);
    }
}

/// Writes the canonical decimal digits of a value.
pub fn u64_to_dec(n: u64) -> (s: String)
    ensures
        s@ == dec_digits(n as int),
    decreases n,
{
    if n < 10 {
        digit_str(n)
    } else {
        let mut s = u64_to_dec(n / 10);
        let d = digit_str(n % 10);
        s.append(d.as_str());
        assert(s@ =~= dec_digits((n / 10) as int).push(digit_char((n % 10) as int)));
        s
    }
}

fn digit_str(d: u64) -> (s: String)
    requires
        d < 10,
    ensures
        s@ == seq![digit_char(d as int)],
{
    let lit: &str = match d {
        0 => "0",
        1 => "1",
        2 => "2",
        3 => "3",
        4 => "4",
        5 => "5",
        6 => "6",
        7 => "7",
        8 => "8",
        _ => "9",
    };
    proof {
        reveal_strlit("0");
        reveal_strlit("1");
        reveal_strlit("2");
        reveal_strlit("3");
        reveal_strlit("4");
        reveal_strlit("5");
        reveal_strlit("6");
        reveal_strlit("7");
        reveal_strlit("8");
        reveal_strlit("9");
        assert(lit@ =~= seq![digit_char(d as int)]);
    }
    lit.to_owned()
}

/// Formatting then parsing a value reproduces it: the canonical digit string
/// is non-empty, all digits, and evaluates to the value it was written from.
pub proof fn lemma_dec_digits_value(n: int)
    requires
        n >= 0,
    ensures
        dec_digits(n).len() >= 1,
        all_digits(dec_digits(n)),
        dec_value(dec_digits(n)) == n,
    decreases n,
{
    if n < 10 {
        let s1 = seq![digit_char(n)];
        assert(dec_digits(n) =~= s1);
        assert(digit_char(n) as int == 48 + n);
        assert(is_digit(digit_char(n)));
        assert(s1.len() == 1 && s1.last() == digit_char(n));
        assert(s1.drop_last() =~= Seq::<char>::empty());
        assert(dec_value(Seq::<char>::empty()) == 0);
        assert(dec_value(s1) == dec_value(s1.drop_last()) * 10 + digit_val(s1.last()));
    } else {
        lemma_dec_digits_value(n / 10);
        let prefix = dec_digits(n / 10);
        let whole = prefix.push(digit_char(n % 10));
        assert(whole.drop_last() =~= prefix);
        assert(is_digit(digit_char(n % 10)));
        assert forall|i: int| 0 <= i < whole.len() implies is_digit(#[trigger] whole[i]) by {
            if i < prefix.len() {
                assert(whole[i] == prefix[i]);
            }
        }
        assert(dec_value(whole) == dec_value(prefix) * 10 + digit_val(digit_char(n % 10)));
        assert(digit_char(n % 10) as int == 48 + n % 10);
        assert(n / 10 * 10 + n % 10 == n);
    }
}

} // verus!
