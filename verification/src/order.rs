//! Lexicographic order on sequences, as byte strings and text are ordered.

use vstd::prelude::*;

verus! {

/// `a` and `b` hold the same values at every place below `k`.
pub open spec fn agree_below(a: Seq<int>, b: Seq<int>, k: int) -> bool {
    forall|i: int| 0 <= i < k ==> a[i] == b[i]
}

/// `a` comes before `b`: at the first place where they part, `a` has ended or
/// holds the smaller value.
pub open spec fn lex_less(a: Seq<int>, b: Seq<int>) -> bool {
    exists|k: int| #[trigger] parts_at(a, b, k)
}

/// `a` and `b` agree below `k`, and at `k` the sequence `a` ends first or is smaller.
pub open spec fn parts_at(a: Seq<int>, b: Seq<int>, k: int) -> bool {
    &&& 0 <= k <= a.len()
    &&& k < b.len()
    &&& agree_below(a, b, k)
    &&& (k == a.len() || a[k] < b[k])
}

pub open spec fn byte_ints(s: Seq<u8>) -> Seq<int> {
    s.map_values(|x: u8| x as int)
}

pub open spec fn char_ints(s: Seq<char>) -> Seq<int> {
    s.map_values(|c: char| c as int)
}

/// Byte strings in lexicographic order.
pub open spec fn bytes_less(a: Seq<u8>, b: Seq<u8>) -> bool {
    lex_less(byte_ints(a), byte_ints(b))
}

/// Text in the order of its code points.
pub open spec fn text_less(a: Seq<char>, b: Seq<char>) -> bool {
    lex_less(char_ints(a), char_ints(b))
}

/// Nothing comes before itself.
pub proof fn lemma_lex_irreflexive(a: Seq<int>)
    ensures
        !lex_less(a, a),
{
    if lex_less(a, a) {
        let k = choose|k: int| #[trigger] parts_at(a, a, k);
        assert(false);
    }
}

/// The order is transitive.
pub proof fn lemma_lex_transitive(a: Seq<int>, b: Seq<int>, c: Seq<int>)
    requires
        lex_less(a, b),
        lex_less(b, c),
    ensures
        lex_less(a, c),
{
    let k1 = choose|k: int| #[trigger] parts_at(a, b, k);
    let k2 = choose|k: int| #[trigger] parts_at(b, c, k);
    let k = if k1 <= k2 {
        k1
    } else {
        k2
    };
    assert(agree_below(a, c, k));
    if k1 < k2 {
        assert(b[k1] == c[k1]);
    } else if k2 < k1 {
        assert(a[k2] == b[k2]);
    }
    assert(parts_at(a, c, k));
}

proof fn lemma_lex_total_from(a: Seq<int>, b: Seq<int>, k: int)
    requires
        0 <= k <= a.len(),
        k <= b.len(),
        agree_below(a, b, k),
    ensures
        lex_less(a, b) || lex_less(b, a) || a == b,
    decreases a.len() - k,
{
    if k == a.len() {
        if k == b.len() {
            assert(a =~= b);
        } else {
            assert(parts_at(a, b, k));
        }
    } else if k == b.len() {
        assert(agree_below(b, a, k));
        assert(parts_at(b, a, k));
    } else if a[k] < b[k] {
        assert(parts_at(a, b, k));
    } else if b[k] < a[k] {
        assert(agree_below(b, a, k));
        assert(parts_at(b, a, k));
    } else {
        lemma_lex_total_from(a, b, k + 1);
    }
}

/// Of two different sequences one comes before the other.
pub proof fn lemma_lex_total(a: Seq<int>, b: Seq<int>)
    ensures
        lex_less(a, b) || lex_less(b, a) || a == b,
{
    lemma_lex_total_from(a, b, 0);
}

/// The order never holds both ways.
pub proof fn lemma_lex_asymmetric(a: Seq<int>, b: Seq<int>)
    requires
        lex_less(a, b),
    ensures
        !lex_less(b, a),
        a != b,
{
    if lex_less(b, a) {
        lemma_lex_transitive(a, b, a);
    }
    lemma_lex_irreflexive(a);
}

/// Byte strings that look the same as integers are the same.
pub proof fn lemma_byte_ints_injective(a: Seq<u8>, b: Seq<u8>)
    requires
        byte_ints(a) == byte_ints(b),
    ensures
        a == b,
{
    assert(a.len() == byte_ints(a).len());
    assert(b.len() == byte_ints(b).len());
    assert forall|i: int| 0 <= i < a.len() implies a[i] == b[i] by {
        assert(byte_ints(a)[i] == a[i] as int);
        assert(byte_ints(b)[i] == b[i] as int);
    }
    assert(a =~= b);
}

/// Texts that look the same as integers are the same.
pub proof fn lemma_char_ints_injective(a: Seq<char>, b: Seq<char>)
    requires
        char_ints(a) == char_ints(b),
    ensures
        a == b,
{
    assert(a.len() == char_ints(a).len());
    assert(b.len() == char_ints(b).len());
    assert forall|i: int| 0 <= i < a.len() implies a[i] == b[i] by {
        assert(char_ints(a)[i] == a[i] as int);
        assert(char_ints(b)[i] == b[i] as int);
    }
    assert(a =~= b);
}

/// How one thing stands to another in an order.
#[derive(Clone, Copy, Debug, PartialEq, Eq, Structural)]
pub enum Rank {
    Before,
    Same,
    After,
}

/// Compares two byte strings lexicographically.
pub fn compare_bytes(a: &[u8], b: &[u8]) -> (r: Rank)
    ensures
        r == Rank::Before <==> bytes_less(a@, b@),
        r == Rank::Same <==> a@ == b@,
        r == Rank::After <==> bytes_less(b@, a@),
{
    let ghost ai = byte_ints(a@);
    let ghost bi = byte_ints(b@);
    let mut i: usize = 0;
    while i < a.len() && i < b.len()
        invariant
            i <= a.len(),
            i <= b.len(),
            ai == byte_ints(a@),
            bi == byte_ints(b@),
            agree_below(ai, bi, i as int),
        decreases a.len() - i,
    {
        if a[i] < b[i] {
            proof {
                assert(parts_at(ai, bi, i as int));
                lemma_lex_asymmetric(ai, bi);
                if a@ == b@ {
                    assert(ai == bi);
                }
            }
            return Rank::Before;
        }
        if a[i] > b[i] {
            proof {
                assert(agree_below(bi, ai, i as int));
                assert(parts_at(bi, ai, i as int));
                lemma_lex_asymmetric(bi, ai);
                if a@ == b@ {
                    assert(ai == bi);
                }
            }
            return Rank::After;
        }
        i += 1;
    }
    if a.len() < b.len() {
        proof {
            assert(parts_at(ai, bi, i as int));
            lemma_lex_asymmetric(ai, bi);
            if a@ == b@ {
                assert(ai == bi);
            }
        }
        Rank::Before
    } else if b.len() < a.len() {
        proof {
            assert(agree_below(bi, ai, i as int));
            assert(parts_at(bi, ai, i as int));
            lemma_lex_asymmetric(bi, ai);
            if a@ == b@ {
                assert(ai == bi);
            }
        }
        Rank::After
    } else {
        proof {
            assert(ai =~= bi);
            lemma_byte_ints_injective(a@, b@);
            lemma_lex_irreflexive(ai);
        }
        Rank::Same
    }
}

/// `PartialOrd::lt` on `str`: text is ordered lexicographically by its bytes, which
/// is the order of its code points.
#[verifier::external_body]
pub(crate) fn text_before(a: &str, b: &str) -> (r: bool)
    ensures
        r == text_less(a@, b@),
{
    a < b
}

/// `PartialEq::eq` on `str`: true when the two hold the same text.
#[verifier::external_body]
pub(crate) fn text_equal(a: &str, b: &str) -> (r: bool)
    ensures
        r == (a@ == b@),
{
    a == b
}

} // verus!
