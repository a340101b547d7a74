//! Cutting text into tokens, trimming white space, and reading decimal
//! integers.

use crate::text::{chars_of, text_from_chars};
use vstd::prelude::*;

verus! {

/// The place of the first `x` in `s`; the length of `s` where it holds
/// none.
pub open spec fn first_index<A>(s: Seq<A>, x: A) -> int
    decreases s.len(),
{
    if s.len() == 0 || s[0] == x {
        0
    } else {
        1 + first_index(s.drop_first(), x)
    }
}

/// The pieces of `s` between its separators, in order: one more piece than
/// there are separators, so the empty text gives one empty piece.
pub open spec fn split_text(s: Seq<char>, sep: char) -> Seq<Seq<char>>
    decreases s.len(),
{
    let i = first_index(s, sep);
    if 0 <= i < s.len() {
        seq![s.take(i)] + split_text(s.skip(i + 1), sep)
    } else {
        seq![s]
    }
}

/// The first `x` is at a place of `s` that holds `x`, or there is none and
/// the place is the length of `s`.
pub proof fn lemma_first_index_bounds<A>(s: Seq<A>, x: A)
    ensures
        0 <= first_index(s, x) <= s.len(),
        first_index(s, x) < s.len() ==> s[first_index(s, x)] == x,
    decreases s.len(),
{
    if s.len() > 0 && s[0] != x {
        lemma_first_index_bounds(s.drop_first(), x);
    }
}

/// Where the first `n` items are not `x` and the next one, if any, is,
/// the first `x` is at `n`.
pub proof fn lemma_first_index<A>(s: Seq<A>, x: A, n: int)
    requires
        0 <= n <= s.len(),
        forall|k: int| 0 <= k < n ==> s[k] != x,
        n < s.len() ==> s[n] == x,
    ensures
        first_index(s, x) == n,
    decreases n,
{
    if n > 0 {
        let t = s.drop_first();
        assert forall|k: int| 0 <= k < n - 1 implies t[k] != x by {
            assert(t[k] == s[k + 1]);
        }
        lemma_first_index(t, x, n - 1);
    }
}

/// The characters that count as white space (the Unicode property
/// `White_Space`).
pub open spec fn is_white_space(c: char) -> bool {
    let u = c as u32;
    ||| 0x09 <= u <= 0x0D
    ||| u == 0x20
    ||| u == 0x85
    ||| u == 0xA0
    ||| u == 0x1680
    ||| 0x2000 <= u <= 0x200A
    ||| u == 0x2028
    ||| u == 0x2029
    ||| u == 0x202F
    ||| u == 0x205F
    ||| u == 0x3000
}

/// Whether `c` is white space.
pub fn white_space(c: char) -> (r: bool)
    ensures
        r == is_white_space(c),
{
    let u = c as u32;
    (0x09 <= u && u <= 0x0D) || u == 0x20 || u == 0x85 || u == 0xA0 || u == 0x1680 || (0x2000 <= u
        && u <= 0x200A) || u == 0x2028 || u == 0x2029 || u == 0x202F || u == 0x205F || u == 0x3000
}

/// The number of white-space characters that `s` begins with.
pub open spec fn leading_space(s: Seq<char>) -> int
    decreases s.len(),
{
    if s.len() > 0 && is_white_space(s[0]) {
        1 + leading_space(s.drop_first())
    } else {
        0
    }
}

/// The number of white-space characters that `s` ends with.
pub open spec fn trailing_space(s: Seq<char>) -> int
    decreases s.len(),
{
    if s.len() > 0 && is_white_space(s.last()) {
        1 + trailing_space(s.drop_last())
    } else {
        0
    }
}

/// `s` without the white space at its two ends.
pub open spec fn trimmed(s: Seq<char>) -> Seq<char> {
    let rest = s.skip(leading_space(s));
    rest.take(rest.len() - trailing_space(rest))
}

/// Where the first `n` characters are white space and the next one, if
/// any, is not, `n` is the leading white space.
pub proof fn lemma_leading_space(s: Seq<char>, n: int)
    requires
        0 <= n <= s.len(),
        forall|k: int| 0 <= k < n ==> is_white_space(s[k]),
        n < s.len() ==> !is_white_space(s[n]),
    ensures
        leading_space(s) == n,
    decreases n,
{
    if n > 0 {
        let t = s.drop_first();
        assert forall|k: int| 0 <= k < n - 1 implies is_white_space(t[k]) by {
            assert(t[k] == s[k + 1]);
        }
        lemma_leading_space(t, n - 1);
    }
}

/// Where the last `n` characters are white space and the one before them,
/// if any, is not, `n` is the trailing white space.
pub proof fn lemma_trailing_space(s: Seq<char>, n: int)
    requires
        0 <= n <= s.len(),
        forall|k: int| s.len() - n <= k < s.len() ==> is_white_space(s[k]),
        n < s.len() ==> !is_white_space(s[s.len() - n - 1]),
    ensures
        trailing_space(s) == n,
    decreases n,
{
    if n > 0 {
        let t = s.drop_last();
        assert forall|k: int| t.len() - (n - 1) <= k < t.len() implies is_white_space(t[k]) by {
            assert(t[k] == s[k]);
        }
        lemma_trailing_space(t, n - 1);
    }
}

/// The text of `chars` from place `from` up to place `to`.
fn slice_text(chars: &Vec<char>, from: usize, to: usize) -> (r: String)
    requires
        from <= to <= chars@.len(),
    ensures
        r@ == chars@.subrange(from as int, to as int),
{
    let mut piece: Vec<char> = Vec::new();
    let mut i: usize = from;
    while i < to
        invariant
            from <= i <= to,
            to <= chars@.len(),
            piece@ == chars@.subrange(from as int, i as int),
        decreases to - i,
    {
        piece.push(chars[i]);
        proof {
            assert(chars@.subrange(from as int, i + 1) =~= chars@.subrange(from as int, i as int).push(
                chars@[i as int],
            ));
        }
        i += 1;
    }
    text_from_chars(&piece)
}

/// The texts of a sequence of strings.
pub open spec fn texts_of(v: Seq<String>) -> Seq<Seq<char>> {
    v.map_values(|s: String| s@)
}

/// Cuts `s` at every `sep`.
pub fn split(s: &str, sep: char) -> (r: Vec<String>)
    ensures
        texts_of(r@) == split_text(s@, sep),
        r@.len() >= 1,
{
    let chars = chars_of(s);
    let mut r: Vec<String> = Vec::new();
    let mut start: usize = 0;
    let mut i: usize = 0;
    proof {
        assert(s@.skip(0) =~= s@);
        assert(texts_of(r@) + split_text(s@, sep) =~= split_text(s@, sep));
    }
    while i < chars.len()
        invariant
            start <= i <= chars.len(),
            chars@ == s@,
            forall|k: int| start <= k < i ==> chars@[k] != sep,
            split_text(s@, sep) == texts_of(r@) + split_text(s@.skip(start as int), sep),
        decreases chars.len() - i,
    {
        if chars[i] == sep {
            let piece = slice_text(&chars, start, i);
            proof {
                let rest = s@.skip(start as int);
                let n = i - start;
                assert forall|k: int| 0 <= k < n implies rest[k] != sep by {
                    assert(rest[k] == s@[start + k]);
                }
                lemma_first_index(rest, sep, n as int);
                assert(rest.take(n as int) =~= s@.subrange(start as int, i as int));
                assert(rest.skip(n + 1) =~= s@.skip(i + 1));
                assert(texts_of(r@.push(piece)) =~= texts_of(r@) + seq![piece@]);
            }
            r.push(piece);
            start = i + 1;
        }
        i += 1;
    }
    let piece = slice_text(&chars, start, i);
    proof {
        let rest = s@.skip(start as int);
        let n = i - start;
        assert forall|k: int| 0 <= k < n implies rest[k] != sep by {
            assert(rest[k] == s@[start + k]);
        }
        lemma_first_index(rest, sep, n as int);
        assert(rest =~= s@.subrange(start as int, i as int));
        assert(texts_of(r@.push(piece)) =~= texts_of(r@) + seq![piece@]);
    }
    r.push(piece);
    r
}

/// Takes the white space off the two ends of `s`.
pub fn trim(s: &str) -> (r: String)
    ensures
        r@ == trimmed(s@),
{
    let chars = chars_of(s);
    let mut a: usize = 0;
    while a < chars.len() && white_space(chars[a])
        invariant
            a <= chars.len(),
            forall|k: int| 0 <= k < a ==> is_white_space(chars@[k]),
        decreases chars.len() - a,
    {
        a += 1;
    }
    let mut b: usize = chars.len();
    while b > a && white_space(chars[b - 1])
        invariant
            a <= b <= chars.len(),
            forall|k: int| b <= k < chars@.len() ==> is_white_space(chars@[k]),
        decreases b,
    {
        b -= 1;
    }
    proof {
        lemma_leading_space(chars@, a as int);
        let rest = chars@.skip(a as int);
        let n = chars@.len() - b;
        assert forall|k: int| rest.len() - n <= k < rest.len() implies is_white_space(rest[k]) by {
            assert(rest[k] == chars@[a + k]);
        }
        if n < rest.len() {
            assert(rest[rest.len() - n - 1] == chars@[b - 1]);
        }
        lemma_trailing_space(rest, n as int);
        assert(rest.take(rest.len() - n) =~= chars@.subrange(a as int, b as int));
    }
    slice_text(&chars, a, b)
}

/// Whether `c` is one of the ten decimal digits.
pub open spec fn is_digit(c: char) -> bool {
    '0' <= c && c <= '9'
}

/// The number a digit stands for.
pub open spec fn digit_value(c: char) -> int {
    (c as u32) - ('0' as u32)
}

/// Whether `s` is made of decimal digits only.
pub open spec fn all_digits(s: Seq<char>) -> bool {
    forall|k: int| 0 <= k < s.len() ==> is_digit(#[trigger] s[k])
}

/// The number that a run of decimal digits stands for.
pub open spec fn digits_value(s: Seq<char>) -> int
    decreases s.len(),
{
    if s.len() == 0 {
        0
    } else {
        digits_value(s.drop_last()) * 10 + digit_value(s.last())
    }
}

/// The 64-bit integer that `s` is the decimal text of: an optional sign,
/// then digits and nothing else, the number within range.
pub open spec fn decimal_integer(s: Seq<char>) -> Option<i64> {
    let signed = s.len() > 0 && (s[0] == '-' || s[0] == '+');
    let negative = s.len() > 0 && s[0] == '-';
    let digits = if signed {
        s.drop_first()
    } else {
        s
    };
    if digits.len() == 0 || !all_digits(digits) {
        None
    } else {
        let n = if negative {
            -digits_value(digits)
        } else {
            digits_value(digits)
        };
        if i64::MIN <= n <= i64::MAX {
            Some(n as i64)
        } else {
            None
        }
    }
}

/// The value of a run of digits is no less than that of any of its
/// beginnings, and never negative.
pub proof fn lemma_digits_value_grows(s: Seq<char>, k: int)
    requires
        all_digits(s),
        0 <= k <= s.len(),
    ensures
        0 <= digits_value(s.take(k)) <= digits_value(s),
    decreases s.len() - k,
{
    lemma_digits_value_nonnegative(s.take(k));
    if k < s.len() {
        lemma_digits_value_grows(s, k + 1);
        let t = s.take(k + 1);
        assert(t.drop_last() =~= s.take(k));
        assert(is_digit(s[k]));
        assert(t.last() == s[k]);
    } else {
        assert(s.take(k) =~= s);
    }
}

/// The value of a run of digits is never negative.
pub proof fn lemma_digits_value_nonnegative(s: Seq<char>)
    requires
        all_digits(s),
    ensures
        0 <= digits_value(s),
    decreases s.len(),
{
    if s.len() > 0 {
        assert(is_digit(s[s.len() - 1]));
        lemma_digits_value_nonnegative(s.drop_last());
    }
}

/// Reads `s` as the decimal text of a 64-bit integer.
#[verifier::loop_isolation(false)]
pub fn parse_integer(s: &str) -> (r: Option<i64>)
    ensures
        r == decimal_integer(s@),
{
    let chars = chars_of(s);
    let n = chars.len();
    let signed = n > 0 && (chars[0] == '-' || chars[0] == '+');
    let negative = n > 0 && chars[0] == '-';
    let first: usize = if signed {
        1
    } else {
        0
    };
    let ghost digits = if signed {
        s@.drop_first()
    } else {
        s@
    };
    if first == n {
        return None;
    }
    let mut i: usize = first;
    while i < n
        invariant
            first <= i <= n,
            n == chars@.len(),
            chars@ == s@,
            digits == s@.skip(first as int),
            forall|k: int| 0 <= k < i - first ==> is_digit(#[trigger] digits[k]),
        decreases n - i,
    {
        let c = chars[i];
        if !('0' <= c && c <= '9') {
            proof {
                assert(digits[i - first] == c);
                assert(!is_digit(digits[i - first]));
            }
            return None;
        }
        i += 1;
    }
    assert(all_digits(digits));
    let limit: u128 = 0x8000_0000_0000_0000;
    let mut value: u128 = 0;
    let mut j: usize = first;
    while j < n
        invariant
            first <= j <= n,
            n == chars@.len(),
            chars@ == s@,
            digits == s@.skip(first as int),
            all_digits(digits),
            limit == 0x8000_0000_0000_0000,
            value == digits_value(digits.take(j - first)),
            value <= limit,
        decreases n - j,
    {
        let c = chars[j];
        proof {
            assert(digits[j - first] == c);
            assert(is_digit(digits[j - first]));
            let t = digits.take(j - first + 1);
            assert(t.drop_last() =~= digits.take(j - first));
            assert(t.last() == c);
        }
        let d = ((c as u32) - ('0' as u32)) as u128;
        let next = value * 10 + d;
        if next > limit {
            proof {
                lemma_digits_value_grows(digits, j - first + 1);
            }
            return None;
        }
        value = next;
        j += 1;
    }
    proof {
        assert(digits.take(n - first) =~= digits);
    }
    if negative {
        if value == limit {
            Some(i64::MIN)
        } else {
            Some(-(value as i64))
        }
    } else if value == limit {
        None
    } else {
        Some(value as i64)
    }
}

/// The character of a decimal digit.
pub open spec fn digit_char(d: int) -> char {
    ((48 + d) as u8) as char
}

/// The decimal text of a natural number, without leading zeros.
pub open spec fn natural_text(n: nat) -> Seq<char>
    decreases n,
{
    if n < 10 {
        seq![digit_char(n as int)]
    } else {
        natural_text(n / 10).push(digit_char((n % 10) as int))
    }
}

/// The decimal text of an integer: a minus sign before a negative one.
pub open spec fn integer_text(i: int) -> Seq<char> {
    if i < 0 {
        seq!['-'] + natural_text((-i) as nat)
    } else {
        natural_text(i as nat)
    }
}

/// Adds the decimal text of `n` to `out`.
fn push_natural(n: u64, out: &mut Vec<char>)
    ensures
        final(out)@ == old(out)@ + natural_text(n as nat),
    decreases n,
{
    if n >= 10 {
        push_natural(n / 10, out);
    }
    let d = (n % 10) as u8;
    out.push((48 + d) as char);
    proof {
        if n >= 10 {
            assert(out@ =~= old(out)@ + natural_text((n / 10) as nat).push(
                digit_char((n % 10) as int),
            ));
        } else {
            assert(out@ =~= old(out)@ + seq![digit_char(n as int)]);
        }
    }
}

/// The decimal text of a 64-bit integer.
pub fn integer_to_text(i: i64) -> (r: String)
    ensures
        r@ == integer_text(i as int),
{
    let mut out: Vec<char> = Vec::new();
    if i < 0 {
        out.push('-');
        let magnitude: u64 = if i == i64::MIN {
            0x8000_0000_0000_0000
        } else {
            (-i) as u64
        };
        push_natural(magnitude, &mut out);
        proof {
            assert(out@ =~= seq!['-'] + natural_text((-i) as nat));
        }
    } else {
        push_natural(i as u64, &mut out);
        proof {
            assert(out@ =~= natural_text(i as nat));
        }
    }
    text_from_chars(&out)
}

} // verus!
