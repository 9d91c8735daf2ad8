//! Byte-string comparison: equality and the lexicographic order that the
//! engine uses for key iteration.

use vstd::prelude::*;

verus! {

/// Strict lexicographic order on byte strings: `a` comes before `b`.
pub open spec fn lex_lt(a: Seq<u8>, b: Seq<u8>) -> bool
    decreases a.len(),
{
    if b.len() == 0 {
        false
    } else if a.len() == 0 {
        true
    } else if a[0] < b[0] {
        true
    } else if a[0] > b[0] {
        false
    } else {
        lex_lt(a.drop_first(), b.drop_first())
    }
}

/// How two byte strings compare under the lexicographic order.
#[derive(Clone, Copy, Debug, PartialEq, Eq, Structural)]
pub enum KeyOrder {
    Less,
    Equal,
    Greater,
}

/// Exactly one of `lex_lt(a, b)`, `a == b`, `lex_lt(b, a)` holds.
pub proof fn lemma_lex_trichotomy(a: Seq<u8>, b: Seq<u8>)
    ensures
        lex_lt(a, b) || lex_lt(b, a) || a == b,
        lex_lt(a, b) ==> !lex_lt(b, a) && a != b,
        lex_lt(b, a) ==> !lex_lt(a, b) && a != b,
    decreases a.len(),
{
    if a.len() == 0 && b.len() == 0 {
        assert(a =~= b);
    } else if a.len() > 0 && b.len() > 0 && a[0] == b[0] {
        let ta = a.drop_first();
        let tb = b.drop_first();
        lemma_lex_trichotomy(ta, tb);
        assert(forall|j: int| 0 <= j < ta.len() ==> ta[j] == a[j + 1]);
        assert(forall|j: int| 0 <= j < tb.len() ==> tb[j] == b[j + 1]);
        if ta == tb {
            assert forall|j: int| 0 <= j < a.len() implies a[j] == b[j] by {
                if j > 0 {
                    assert(a[j] == ta[j - 1]);
                    assert(b[j] == tb[j - 1]);
                }
            }
            assert(a =~= b);
        }
        if a == b {
            assert(ta =~= tb);
        }
    }
}

/// The lexicographic order is transitive.
pub proof fn lemma_lex_transitive(a: Seq<u8>, b: Seq<u8>, c: Seq<u8>)
    requires
        lex_lt(a, b),
        lex_lt(b, c),
    ensures
        lex_lt(a, c),
    decreases a.len(),
{
    if a.len() > 0 && b.len() > 0 && c.len() > 0 && a[0] == b[0] && b[0] == c[0] {
        lemma_lex_transitive(a.drop_first(), b.drop_first(), c.drop_first());
    }
}

/// A strict prefix comes before every extension of it.
pub proof fn lemma_lex_from_position(a: Seq<u8>, b: Seq<u8>, i: int)
    requires
        0 <= i <= a.len(),
        0 <= i <= b.len(),
        a.subrange(0, i) == b.subrange(0, i),
        i < b.len(),
        i == a.len() || a[i] < b[i],
    ensures
        lex_lt(a, b),
    decreases i,
{
    if i == 0 {
        if a.len() == 0 {
        } else {
            assert(a[0] < b[0]);
        }
    } else {
        let sa = a.subrange(0, i);
        let sb = b.subrange(0, i);
        assert(forall|j: int| 0 <= j < i ==> sa[j] == a[j] && sb[j] == b[j]);
        assert(a[0] == b[0]) by {
            assert(sa[0] == sb[0]);
        }
        let ta = a.drop_first();
        let tb = b.drop_first();
        assert(forall|j: int| 0 <= j < ta.len() ==> ta[j] == a[j + 1]);
        assert(forall|j: int| 0 <= j < tb.len() ==> tb[j] == b[j + 1]);
        assert(ta.subrange(0, i - 1) =~= tb.subrange(0, i - 1)) by {
            assert(forall|j: int| 0 <= j < i - 1 ==> ta.subrange(0, i - 1)[j] == ta[j]);
            assert(forall|j: int| 0 <= j < i - 1 ==> tb.subrange(0, i - 1)[j] == tb[j]);
            assert(forall|j: int| 0 <= j < i - 1 ==> ta[j] == sa[j + 1] && tb[j] == sb[j + 1]);
        }
        lemma_lex_from_position(ta, tb, i - 1);
        assert(a.len() > 0 && b.len() > 0 && a[0] == b[0]);
    }
}

/// Compares two byte strings, reporting their lexicographic relation.
#[verifier::loop_isolation(false)]
pub fn lex_cmp(a: &Vec<u8>, b: &Vec<u8>) -> (r: KeyOrder)
    ensures
        r == KeyOrder::Less <==> lex_lt(a@, b@),
        r == KeyOrder::Greater <==> lex_lt(b@, a@),
        r == KeyOrder::Equal <==> a@ == b@,
{
    proof {
        lemma_lex_trichotomy(a@, b@);
    }
    let mut i: usize = 0;
    while i < a.len() && i < b.len()
        invariant
            0 <= i <= a.len(),
            0 <= i <= b.len(),
            forall|j: int| 0 <= j < i ==> a@[j] == b@[j],
        decreases a.len() - i,
    {
        if a[i] < b[i] {
            proof {
                assert(a@.subrange(0, i as int) =~= b@.subrange(0, i as int));
                lemma_lex_from_position(a@, b@, i as int);
            }
            return KeyOrder::Less;
        }
        if a[i] > b[i] {
            proof {
                assert(b@.subrange(0, i as int) =~= a@.subrange(0, i as int));
                lemma_lex_from_position(b@, a@, i as int);
            }
            return KeyOrder::Greater;
        }
        i = i + 1;
    }
    if a.len() < b.len() {
        proof {
            assert(a@.subrange(0, a@.len() as int) =~= b@.subrange(0, a@.len() as int));
            lemma_lex_from_position(a@, b@, a@.len() as int);
        }
        KeyOrder::Less
    } else if a.len() > b.len() {
        proof {
            assert(b@.subrange(0, b@.len() as int) =~= a@.subrange(0, b@.len() as int));
            lemma_lex_from_position(b@, a@, b@.len() as int);
        }
        KeyOrder::Greater
    } else {
        proof {
            assert(a@ =~= b@);
        }
        KeyOrder::Equal
    }
}

/// Whether two byte strings hold the same bytes.
pub fn bytes_eq(a: &Vec<u8>, b: &Vec<u8>) -> (r: bool)
    ensures
        r <==> a@ == b@,
{
    matches!(lex_cmp(a, b), KeyOrder::Equal)
}

/// An owned copy of a byte string.
pub fn dup_bytes(v: &Vec<u8>) -> (r: Vec<u8>)
    ensures
        r@ == v@,
{
    vstd::slice::slice_to_vec(v.as_slice())
}

} // verus!
