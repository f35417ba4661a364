//! Text as sequences of characters: classification, trimming, upper-casing
//! and truncation, with executable counterparts over `str` and `String`.

use vstd::prelude::*;

verus! {

/// Appending one character to a `String`: `std` documents `String::push` as
/// appending the given `char` to the end of the string.
pub assume_specification[ String::push ](s: &mut String, c: char)
    ensures
        final(s)@ == old(s)@.push(c),
;

/// An ASCII letter.
pub open spec fn is_alpha(c: char) -> bool {
    ||| 'a' <= c <= 'z'
    ||| 'A' <= c <= 'Z'
}

/// An ASCII decimal digit.
pub open spec fn is_digit(c: char) -> bool {
    '0' <= c <= '9'
}

/// A character with the Unicode property `White_Space`.
pub open spec fn is_white(c: char) -> bool {
    ||| '\u{9}' <= c <= '\u{d}'
    ||| c == '\u{20}'
    ||| c == '\u{85}'
    ||| c == '\u{a0}'
    ||| c == '\u{1680}'
    ||| '\u{2000}' <= c <= '\u{200a}'
    ||| c == '\u{2028}'
    ||| c == '\u{2029}'
    ||| c == '\u{202f}'
    ||| c == '\u{205f}'
    ||| c == '\u{3000}'
}

/// The ASCII upper case of a character; every other character is kept.
pub open spec fn upper(c: char) -> char {
    if 'a' <= c <= 'z' {
        (c as u32 - 32) as char
    } else {
        c
    }
}

/// The ASCII upper case of a whole text.
pub open spec fn upper_all(s: Seq<char>) -> Seq<char> {
    s.map_values(|c: char| upper(c))
}

/// A text without its leading white space.
pub open spec fn trim_start(s: Seq<char>) -> Seq<char>
    decreases s.len(),
{
    if s.len() > 0 && is_white(s[0]) {
        trim_start(s.drop_first())
    } else {
        s
    }
}

/// A text without its trailing white space.
pub open spec fn trim_end(s: Seq<char>) -> Seq<char>
    decreases s.len(),
{
    if s.len() > 0 && is_white(s.last()) {
        trim_end(s.drop_last())
    } else {
        s
    }
}

/// A text without white space at either end.
pub open spec fn trim(s: Seq<char>) -> Seq<char> {
    trim_end(trim_start(s))
}

/// The first `n` characters of a text, or all of it when it is shorter.
pub open spec fn first_chars(s: Seq<char>, n: nat) -> Seq<char> {
    if s.len() > n {
        s.take(n as int)
    } else {
        s
    }
}

/// Trimming leaves a text alone that has no white space at either end.
pub proof fn lemma_trim_fixed(s: Seq<char>)
    requires
        s.len() > 0 ==> !is_white(s[0]) && !is_white(s.last()),
    ensures
        trim(s) == s,
{
}

/// Whether a character has the Unicode property `White_Space`.
pub fn char_is_white(c: char) -> (r: bool)
    ensures
        r == is_white(c),
{
    ('\u{9}' <= c && c <= '\u{d}') || c == '\u{20}' || c == '\u{85}' || c == '\u{a0}' || c
        == '\u{1680}' || ('\u{2000}' <= c && c <= '\u{200a}') || c == '\u{2028}' || c
        == '\u{2029}' || c == '\u{202f}' || c == '\u{205f}' || c == '\u{3000}'
}

/// The ASCII upper case of one character.
pub fn char_upper(c: char) -> (r: char)
    ensures
        r == upper(c),
{
    if 'a' <= c && c <= 'z' {
        ((c as u8) - 32) as char
    } else {
        c
    }
}

/// The characters of a text, in order.
pub fn chars_of(s: &str) -> (r: Vec<char>)
    ensures
        r@ == s@,
{
    let mut out: Vec<char> = Vec::new();
    for c in it: s.chars()
        invariant
            it.seq() == s@,
            out@ == s@.take(it.index() as int),
    {
        out.push(c);
    }
    out
}

/// The text made of the characters `from..to`.
pub fn string_of(chars: &Vec<char>, from: usize, to: usize) -> (r: String)
    requires
        from <= to <= chars@.len(),
    ensures
        r@ == chars@.subrange(from as int, to as int),
{
    let mut out = String::new();
    let mut i: usize = from;
    while i < to
        invariant
            from <= i <= to <= chars@.len(),
            out@ == chars@.subrange(from as int, i as int),
        decreases to - i,
    {
        out.push(chars[i]);
        i = i + 1;
    }
    out
}

/// The bounds of a text without the white space at its ends.
pub fn trim_bounds(chars: &Vec<char>) -> (r: (usize, usize))
    ensures
        r.0 <= r.1 <= chars@.len(),
        chars@.subrange(r.0 as int, r.1 as int) == trim(chars@),
{
    let n: usize = chars.len();
    let mut from: usize = 0;
    assert(chars@.subrange(0, n as int) == chars@);
    while from < n && char_is_white(chars[from])
        invariant
            from <= n == chars@.len(),
            trim_start(chars@) == trim_start(chars@.subrange(from as int, n as int)),
        decreases n - from,
    {
        assert(chars@.subrange(from as int, n as int).drop_first() == chars@.subrange(
            from + 1,
            n as int,
        ));
        from = from + 1;
    }
    let mut to: usize = n;
    assert(trim_start(chars@) == chars@.subrange(from as int, n as int));
    while to > from && char_is_white(chars[to - 1])
        invariant
            from <= to <= n == chars@.len(),
            trim(chars@) == trim_end(chars@.subrange(from as int, to as int)),
        decreases to - from,
    {
        assert(chars@.subrange(from as int, to as int).drop_last() == chars@.subrange(
            from as int,
            to - 1,
        ));
        to = to - 1;
    }
    (from, to)
}

/// A text without white space at its ends, in ASCII upper case.
pub fn trimmed_upper(s: &str) -> (r: String)
    ensures
        r@ == upper_all(trim(s@)),
{
    let chars = chars_of(s);
    let (from, to) = trim_bounds(&chars);
    let mut out = String::new();
    let mut i: usize = from;
    while i < to
        invariant
            from <= i <= to <= chars@.len(),
            out@ == upper_all(chars@.subrange(from as int, i as int)),
        decreases to - i,
    {
        out.push(char_upper(chars[i]));
        i = i + 1;
        assert(out@ == upper_all(chars@.subrange(from as int, i as int)));
    }
    out
}

/// The first `n` characters of a text, or all of it when it is shorter.
pub fn truncated(s: &str, n: usize) -> (r: String)
    ensures
        r@ == first_chars(s@, n as nat),
{
    let chars = chars_of(s);
    if chars.len() > n {
        string_of(&chars, 0, n)
    } else {
        s.to_owned()
    }
}

/// Whether two texts are equal, character by character.
pub fn same_text(a: &str, b: &str) -> (r: bool)
    ensures
        r == (a@ == b@),
{
    a.to_owned() == b.to_owned()
}

proof fn lemma_trim_start(s: Seq<char>, a: int)
    requires
        0 <= a <= s.len(),
        forall|i: int| 0 <= i < a ==> is_white(#[trigger] s[i]),
        a < s.len() ==> !is_white(s[a]),
    ensures
        trim_start(s) == s.skip(a),
    decreases a,
{
    if a > 0 {
        assert(is_white(s[0]));
        let rest = s.drop_first();
        assert forall|i: int| 0 <= i < a - 1 implies is_white(#[trigger] rest[i]) by {
            assert(rest[i] == s[i + 1]);
        }
        lemma_trim_start(rest, a - 1);
        assert(rest.skip(a - 1) =~= s.skip(a));
    } else {
        assert(s.skip(0) =~= s);
    }
}

proof fn lemma_trim_end(s: Seq<char>, b: int)
    requires
        0 <= b <= s.len(),
        forall|i: int| b <= i < s.len() ==> is_white(#[trigger] s[i]),
        b > 0 ==> !is_white(s[b - 1]),
    ensures
        trim_end(s) == s.take(b),
    decreases s.len() - b,
{
    if b < s.len() {
        assert(is_white(s[s.len() - 1]));
        lemma_trim_end(s.drop_last(), b);
        assert(s.drop_last().take(b) =~= s.take(b));
    } else {
        assert(s.take(b) =~= s);
    }
}

/// Trimming takes away the white space at both ends and nothing else: a text
/// that begins and ends with other characters stands for itself, whatever
/// white space, of any script, is put around it.
pub proof fn law_trim_keeps_what_is_between(s: Seq<char>, a: int, b: int)
    requires
        0 <= a <= b <= s.len(),
    ensures
        ({
            let white = |c: char|
                ('\t' <= c <= '\r') || c == ' ' || c == '\u{85}' || c == '\u{a0}' || c == '\u{1680}'
                    || ('\u{2000}' <= c <= '\u{200a}') || c == '\u{2028}' || c == '\u{2029}' || c
                    == '\u{202f}' || c == '\u{205f}' || c == '\u{3000}';
            (forall|i: int| 0 <= i < a ==> white(#[trigger] s[i])) && (forall|i: int|
                b <= i < s.len() ==> white(#[trigger] s[i])) && (a < b ==> !white(s[a]) && !white(
                s[b - 1],
            )) ==> trim(s) == s.subrange(a, b)
        }),
{
    let white = |c: char|
        ('\t' <= c <= '\r') || c == ' ' || c == '\u{85}' || c == '\u{a0}' || c == '\u{1680}' || (
        '\u{2000}' <= c <= '\u{200a}') || c == '\u{2028}' || c == '\u{2029}' || c == '\u{202f}' || c
            == '\u{205f}' || c == '\u{3000}';
    assert forall|c: char| #[trigger] white(c) == is_white(c) by {}
    if (forall|i: int| 0 <= i < a ==> white(#[trigger] s[i])) && (forall|i: int|
        b <= i < s.len() ==> white(#[trigger] s[i])) && (a < b ==> !white(s[a]) && !white(
        s[b - 1],
    )) {
        assert forall|i: int| 0 <= i < a implies is_white(#[trigger] s[i]) by {
            assert(white(s[i]));
        }
        assert forall|i: int| b <= i < s.len() implies is_white(#[trigger] s[i]) by {
            assert(white(s[i]));
        }
        if a < b {
            lemma_trim_start(s, a);
            let rest = s.skip(a);
            assert forall|i: int| b - a <= i < rest.len() implies is_white(#[trigger] rest[i]) by {
                assert(rest[i] == s[a + i]);
            }
            lemma_trim_end(rest, b - a);
            assert(rest.take(b - a) =~= s.subrange(a, b));
        } else {
            lemma_trim_start(s, s.len() as int);
            assert(s.skip(s.len() as int) =~= Seq::<char>::empty());
            assert(s.subrange(a, b) =~= Seq::<char>::empty());
        }
    }
}

/// Upper case is taken letter by letter, from ASCII letters alone.
pub proof fn law_upper_case_is_ascii(s: Seq<char>, i: int)
    requires
        0 <= i < s.len(),
    ensures
        upper_all(s).len() == s.len(),
        97 <= s[i] as u32 <= 122 ==> upper_all(s)[i] as u32 == s[i] as u32 - 32,
        !(97 <= s[i] as u32 <= 122) ==> upper_all(s)[i] == s[i],
{
}

/// Truncating keeps the first characters, as many as are allowed, and all of
/// a text that is short enough.
pub proof fn law_truncation_keeps_the_start(s: Seq<char>, n: nat)
    ensures
        first_chars(s, n).len() == (if s.len() <= n {
            s.len()
        } else {
            n
        }),
        forall|i: int| 0 <= i < first_chars(s, n).len() ==> #[trigger] first_chars(s, n)[i] == s[i],
{
}

} // verus!
