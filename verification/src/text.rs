//! Text as a sequence of characters: the order in which column names and
//! string values are kept, and the few character-level operations the
//! loaders need.

use vstd::prelude::*;
use vstd::std_specs::iter::IteratorSpec;

verus! {

/// The code point of a character.
pub open spec fn code(c: char) -> int {
    c as u32 as int
}

/// Different characters have different code points.
pub proof fn lemma_code_injective(a: char, b: char)
    ensures
        code(a) == code(b) ==> a == b,
{
}

/// Lexicographic order by code point: `a` comes strictly before `b`.
pub open spec fn text_lt(a: Seq<char>, b: Seq<char>) -> bool
    decreases a.len(),
{
    if b.len() == 0 {
        false
    } else if a.len() == 0 {
        true
    } else if a[0] == b[0] {
        text_lt(a.drop_first(), b.drop_first())
    } else {
        code(a[0]) < code(b[0])
    }
}

/// No text comes before itself.
pub proof fn lemma_text_lt_irreflexive(a: Seq<char>)
    ensures
        !text_lt(a, a),
    decreases a.len(),
{
    if a.len() > 0 {
        lemma_text_lt_irreflexive(a.drop_first());
    }
}

/// The order on texts is transitive.
pub proof fn lemma_text_lt_transitive(a: Seq<char>, b: Seq<char>, c: Seq<char>)
    requires
        text_lt(a, b),
        text_lt(b, c),
    ensures
        text_lt(a, c),
    decreases a.len(),
{
    if a.len() > 0 && a[0] == b[0] && b[0] == c[0] {
        lemma_text_lt_transitive(a.drop_first(), b.drop_first(), c.drop_first());
    }
}

/// Any two texts are equal or ordered one way or the other.
pub proof fn lemma_text_lt_total(a: Seq<char>, b: Seq<char>)
    ensures
        text_lt(a, b) || a == b || text_lt(b, a),
    decreases a.len(),
{
    if a.len() == 0 || b.len() == 0 {
        if a.len() == 0 && b.len() == 0 {
            assert(a =~= b);
        }
    } else if a[0] == b[0] {
        lemma_text_lt_total(a.drop_first(), b.drop_first());
        if a.drop_first() == b.drop_first() {
            assert(a =~= seq![a[0]] + a.drop_first());
            assert(b =~= seq![b[0]] + b.drop_first());
        }
    } else {
        lemma_code_injective(a[0], b[0]);
    }
}

/// Two texts that agree on their first `i` characters compare as their
/// remainders do.
pub proof fn lemma_text_common_prefix(a: Seq<char>, b: Seq<char>, i: int)
    requires
        0 <= i <= a.len(),
        i <= b.len(),
        a.take(i) == b.take(i),
    ensures
        text_lt(a, b) == text_lt(a.skip(i), b.skip(i)),
        text_lt(b, a) == text_lt(b.skip(i), a.skip(i)),
        (a == b) == (a.skip(i) == b.skip(i)),
    decreases i,
{
    if i == 0 {
        assert(a.skip(0) =~= a);
        assert(b.skip(0) =~= b);
    } else {
        let a1 = a.drop_first();
        let b1 = b.drop_first();
        assert(a[0] == a.take(i)[0]);
        assert(b[0] == b.take(i)[0]);
        assert(a1.take(i - 1) =~= a.take(i).drop_first());
        assert(b1.take(i - 1) =~= b.take(i).drop_first());
        lemma_text_common_prefix(a1, b1, i - 1);
        assert(a1.skip(i - 1) =~= a.skip(i));
        assert(b1.skip(i - 1) =~= b.skip(i));
        if a1 == b1 {
            assert(a =~= seq![a[0]] + a1);
            assert(b =~= seq![b[0]] + b1);
        }
    }
}

/// The characters of a string slice.
pub fn chars_of(s: &str) -> (v: Vec<char>)
    ensures
        v@ == s@,
{
    let n = s.unicode_len();
    let mut it = s.chars();
    let mut v: Vec<char> = Vec::new();
    while v.len() < n
        invariant
            v@ + it.remaining() == s@,
            n == s@.len(),
        decreases n - v.len(),
    {
        let next = it.next();
        match next {
            Some(c) => {
                v.push(c);
            },
            None => {
                assert(false);
            },
        }
    }
    assert(it.remaining().len() == 0);
    v
}

/// Collects characters into a `String` with `Iterator::collect`; the string
/// holds exactly the characters given, in order.
#[verifier::external_body]
pub(crate) fn text_from_chars(chars: &Vec<char>) -> (s: String)
    ensures
        s@ == chars@,
{
    chars.iter().collect()
}

/// Whether `a` comes strictly before `b` in code-point order.
pub fn char_before(a: char, b: char) -> (r: bool)
    ensures
        r == (code(a) < code(b)),
{
    a < b
}

/// Whether two string slices hold the same characters.
pub fn same_text(a: &str, b: &str) -> (r: bool)
    ensures
        r == (a@ == b@),
{
    let av = chars_of(a);
    let bv = chars_of(b);
    if av.len() != bv.len() {
        return false;
    }
    let mut i: usize = 0;
    while i < av.len()
        invariant
            i <= av.len(),
            av.len() == bv.len(),
            av@ == a@,
            bv@ == b@,
            av@.take(i as int) == bv@.take(i as int),
        decreases av.len() - i,
    {
        if av[i] != bv[i] {
            assert(a@[i as int] != b@[i as int]);
            return false;
        }
        assert(av@.take(i + 1) =~= av@.take(i as int).push(av@[i as int]));
        assert(bv@.take(i + 1) =~= bv@.take(i as int).push(bv@[i as int]));
        i += 1;
    }
    assert(av@ =~= av@.take(i as int));
    assert(bv@ =~= bv@.take(i as int));
    true
}

/// Where one item stands relative to another in a strict total order.
#[derive(Clone, Copy, Debug, PartialEq, Eq, Structural)]
pub enum Position {
    Before,
    Same,
    After,
}

/// How `a` stands to `b` in the order of texts.
pub open spec fn text_position(a: Seq<char>, b: Seq<char>) -> Position {
    if text_lt(a, b) {
        Position::Before
    } else if a == b {
        Position::Same
    } else {
        Position::After
    }
}

/// Compares two string slices character by character.
pub fn compare_text(a: &str, b: &str) -> (r: Position)
    ensures
        r == text_position(a@, b@),
{
    let av = chars_of(a);
    let bv = chars_of(b);
    let mut i: usize = 0;
    while i < av.len() && i < bv.len()
        invariant
            i <= av.len(),
            i <= bv.len(),
            av@ == a@,
            bv@ == b@,
            av@.take(i as int) == bv@.take(i as int),
        decreases av.len() - i,
    {
        if av[i] != bv[i] {
            proof {
                lemma_text_common_prefix(a@, b@, i as int);
                lemma_code_injective(av@[i as int], bv@[i as int]);
                assert(a@.skip(i as int)[0] == av@[i as int]);
                assert(b@.skip(i as int)[0] == bv@[i as int]);
            }
            if char_before(av[i], bv[i]) {
                return Position::Before;
            } else {
                return Position::After;
            }
        }
        proof {
            let n = i as int;
            assert(av@.take(n + 1) =~= av@.take(n).push(av@[n]));
            assert(bv@.take(n + 1) =~= bv@.take(n).push(bv@[n]));
        }
        i += 1;
    }
    proof {
        lemma_text_common_prefix(a@, b@, i as int);
        if av.len() == bv.len() {
            assert(a@.skip(i as int) =~= b@.skip(i as int));
            lemma_text_lt_irreflexive(a@);
        }
    }
    if av.len() < bv.len() {
        Position::Before
    } else if av.len() == bv.len() {
        Position::Same
    } else {
        Position::After
    }
}

/// The lower-case form of an ASCII capital; any other character is itself.
pub open spec fn lower_char(c: char) -> char {
    if 'A' <= c && c <= 'Z' {
        ((c as u8) + 32) as char
    } else {
        c
    }
}

/// A text with its ASCII capitals in lower case.
pub open spec fn ascii_lower(s: Seq<char>) -> Seq<char> {
    Seq::new(s.len(), |i: int| lower_char(s[i]))
}

/// Lower-cases the ASCII capitals of `s`; every other character stays.
pub fn to_ascii_lower(s: &str) -> (r: String)
    ensures
        r@ == ascii_lower(s@),
{
    let chars = chars_of(s);
    let mut out: Vec<char> = Vec::new();
    let mut i: usize = 0;
    while i < chars.len()
        invariant
            i <= chars.len(),
            out@.len() == i,
            forall|k: int| 0 <= k < i ==> out@[k] == lower_char(#[trigger] chars@[k]),
        decreases chars.len() - i,
    {
        let c = chars[i];
        if 'A' <= c && c <= 'Z' {
            out.push(((c as u8) + 32) as char);
        } else {
            out.push(c);
        }
        i += 1;
    }
    assert(out@ =~= ascii_lower(chars@));
    text_from_chars(&out)
}

} // verus!
