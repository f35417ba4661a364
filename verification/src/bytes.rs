//! Byte strings: lexicographic order and UTF-8 text.

use vstd::prelude::*;
use vstd::utf8::*;

verus! {

/// `a` and `b` agree before `i`, and `b` goes on from there with more than
/// `a` does.
pub open spec fn lex_less_at(a: Seq<u8>, b: Seq<u8>, i: int) -> bool {
    &&& 0 <= i <= a.len()
    &&& i < b.len()
    &&& forall|j: int| 0 <= j < i ==> a[j] == b[j]
    &&& i < a.len() ==> a[i] < b[i]
}

/// The lexicographic order of byte strings, in which a proper prefix comes
/// first.
pub open spec fn lex_less(a: Seq<u8>, b: Seq<u8>) -> bool {
    exists|i: int| #[trigger] lex_less_at(a, b, i)
}

/// Lexicographic order is transitive.
pub proof fn lemma_lex_less_transitive(a: Seq<u8>, b: Seq<u8>, c: Seq<u8>)
    requires
        lex_less(a, b),
        lex_less(b, c),
    ensures
        lex_less(a, c),
{
    let i = choose|i: int| #[trigger] lex_less_at(a, b, i);
    let j = choose|j: int| #[trigger] lex_less_at(b, c, j);
    let k = if i < j { i } else { j };
    assert(lex_less_at(a, c, k));
}

/// No byte string comes before itself, and of two at most one comes first.
pub proof fn lemma_lex_less_asymmetric(a: Seq<u8>, b: Seq<u8>)
    requires
        lex_less(a, b),
    ensures
        !lex_less(b, a),
        a != b,
{
    let i = choose|i: int| #[trigger] lex_less_at(a, b, i);
    if lex_less(b, a) {
        let j = choose|j: int| #[trigger] lex_less_at(b, a, j);
        if i < j {
            assert(b[i] == a[i]);
        } else if j < i {
            assert(a[j] == b[j]);
        }
    }
}

/// Of two different byte strings one comes first.
pub proof fn lemma_lex_less_total(a: Seq<u8>, b: Seq<u8>)
    requires
        a != b,
    ensures
        lex_less(a, b) || lex_less(b, a),
{
    let n = lemma_common_prefix(a, b);
    if n == a.len() && n == b.len() {
        assert(a =~= b);
    }
    assert(lex_less_at(a, b, n as int) || lex_less_at(b, a, n as int));
}

proof fn lemma_common_prefix(a: Seq<u8>, b: Seq<u8>) -> (n: nat)
    ensures
        n <= a.len(),
        n <= b.len(),
        forall|j: int| 0 <= j < n ==> a[j] == b[j],
        n < a.len() && n < b.len() ==> a[n as int] != b[n as int],
    decreases a.len(),
{
    if a.len() == 0 || b.len() == 0 || a[0] != b[0] {
        0
    } else {
        let m = lemma_common_prefix(a.drop_first(), b.drop_first());
        assert forall|j: int| 0 <= j < m + 1 implies a[j] == b[j] by {
            if j > 0 {
                assert(a.drop_first()[j - 1] == b.drop_first()[j - 1]);
            }
        }
        if m + 1 < a.len() && m + 1 < b.len() {
            assert(a.drop_first()[m as int] != b.drop_first()[m as int]);
        }
        m + 1
    }
}

/// Order is decided by what follows a common prefix.
pub proof fn lemma_lex_less_prefix(p: Seq<u8>, a: Seq<u8>, b: Seq<u8>)
    requires
        lex_less(a, b),
    ensures
        lex_less(p + a, p + b),
{
    let i = choose|i: int| #[trigger] lex_less_at(a, b, i);
    assert(lex_less_at(p + a, p + b, p.len() + i));
}

/// Whether `a` comes before `b` in lexicographic order.
pub fn bytes_less(a: &[u8], b: &[u8]) -> (r: bool)
    ensures
        r == lex_less(a@, b@),
{
    let mut i: usize = 0;
    while i < a.len() && i < b.len() && a[i] == b[i]
        invariant
            i <= a@.len(),
            i <= b@.len(),
            forall|j: int| 0 <= j < i ==> a@[j] == b@[j],
        decreases a@.len() - i,
    {
        i = i + 1;
    }
    let r = i < b.len() && (i == a.len() || a[i] < b[i]);
    proof {
        if r {
            assert(lex_less_at(a@, b@, i as int));
        } else if lex_less(a@, b@) {
            let k = choose|k: int| #[trigger] lex_less_at(a@, b@, k);
            if k < i {
                assert(a@[k] == b@[k]);
            } else if k > i {
                assert(a@[i as int] == b@[i as int]);
            }
        }
    }
    r
}

/// Appends `tail` to `out`.
pub fn push_all(out: &mut Vec<u8>, tail: &[u8])
    ensures
        final(out)@ == old(out)@ + tail@,
{
    let mut i: usize = 0;
    while i < tail.len()
        invariant
            i <= tail@.len(),
            out@ == old(out)@ + tail@.take(i as int),
        decreases tail@.len() - i,
    {
        out.push(tail[i]);
        i = i + 1;
        assert(tail@.take(i as int) == tail@.take(i - 1).push(tail@[i - 1]));
    }
    assert(tail@.take(i as int) == tail@);
}

/// The text that a byte string holds in UTF-8: `std::str::from_utf8`, which
/// gives the text exactly when the bytes are valid UTF-8.
#[verifier::external_body]
pub(crate) fn utf8_text(bytes: &[u8]) -> (r: Option<String>)
    ensures
        r is Some <==> valid_utf8(bytes@),
        r matches Some(s) ==> s@ == decode_utf8(bytes@) && encode_utf8(s@) == bytes@,
{
    std::str::from_utf8(bytes).ok().map(str::to_owned)
}

} // verus!
