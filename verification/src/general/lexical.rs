//! The lexicographic order of byte strings, by which escadra strings are
//! compared.

use vstd::prelude::*;

verus! {

/// How one byte string stands to another in the lexicographic order.
#[derive(Debug, Clone, Copy, PartialEq, Eq, Structural)]
pub enum Lexical {
    /// The first comes before the second.
    Before,
    /// The two are the same bytes.
    Equal,
    /// The first comes after the second.
    After,
}

/// Whether `a` and `b` are the same up to position `k`, where `b` goes on and
/// `a` either ends or holds a smaller byte.
pub open spec fn parts_at(a: Seq<u8>, b: Seq<u8>, k: int) -> bool {
    &&& 0 <= k <= a.len()
    &&& k < b.len()
    &&& a.subrange(0, k) == b.subrange(0, k)
    &&& k < a.len() ==> a[k] < b[k]
}

/// Whether `a` comes before `b`: at the first position where they differ,
/// `a` has ended or holds the smaller byte.
pub open spec fn precedes(a: Seq<u8>, b: Seq<u8>) -> bool {
    exists|k: int| parts_at(a, b, k)
}

/// How `a` stands to `b`.
pub open spec fn lexical_order(a: Seq<u8>, b: Seq<u8>) -> Lexical {
    if a == b {
        Lexical::Equal
    } else if precedes(a, b) {
        Lexical::Before
    } else {
        Lexical::After
    }
}

/// Where `a` and `b` agree up to `i` and `b` holds the smaller byte there, or
/// has ended there while `a` goes on, `a` does not come before `b`.
proof fn lemma_not_before(a: Seq<u8>, b: Seq<u8>, i: int)
    requires
        0 <= i < a.len(),
        i <= b.len(),
        a.subrange(0, i) == b.subrange(0, i),
        i < b.len() ==> a[i] > b[i],
    ensures
        !precedes(a, b),
        a != b,
{
    assert forall|k: int| !parts_at(a, b, k) by {
        if parts_at(a, b, k) {
            if k < i {
                assert(b.subrange(0, i)[k] == b[k]);
            } else if k > i {
                assert(b.subrange(0, k)[i] == b[i]);
            }
        }
    }
}

/// Two byte strings that are the same up to `i` and are not the same: one of
/// them comes before the other, and not the other before the one.
proof fn lemma_one_before_from(a: Seq<u8>, b: Seq<u8>, i: int)
    requires
        0 <= i <= a.len(),
        i <= b.len(),
        a.subrange(0, i) == b.subrange(0, i),
        a != b,
    ensures
        precedes(a, b) <==> !precedes(b, a),
    decreases a.len() - i,
{
    if i == a.len() {
        if i == b.len() {
            assert(a =~= a.subrange(0, i));
            assert(b =~= b.subrange(0, i));
        }
        assert(parts_at(a, b, i));
        lemma_not_before(b, a, i);
    } else if i == b.len() {
        lemma_not_before(a, b, i);
    } else if a[i] < b[i] {
        assert(parts_at(a, b, i));
        lemma_not_before(b, a, i);
    } else if a[i] > b[i] {
        assert(parts_at(b, a, i));
        lemma_not_before(a, b, i);
    } else {
        assert(a.subrange(0, i + 1) =~= a.subrange(0, i).push(a[i]));
        assert(b.subrange(0, i + 1) =~= b.subrange(0, i).push(b[i]));
        lemma_one_before_from(a, b, i + 1);
    }
}

/// The order is total and strict: of two byte strings that are not the same
/// exactly one comes before the other, and none comes before itself. So
/// `a` stands `After` `b` exactly where `b` comes before `a`.
pub proof fn law_order_is_total(a: Seq<u8>, b: Seq<u8>)
    ensures
        !precedes(a, a),
        a != b ==> (precedes(a, b) <==> !precedes(b, a)),
        lexical_order(a, b) == Lexical::After <==> precedes(b, a),
        lexical_order(a, b) == Lexical::Before <==> lexical_order(b, a) == Lexical::After,
{
    assert forall|k: int| !parts_at(a, a, k) by {}
    if a != b {
        assert(a.subrange(0, 0) =~= b.subrange(0, 0));
        lemma_one_before_from(a, b, 0);
    }
}

/// The order is transitive: what comes before a byte string that comes
/// before a third comes before the third.
pub proof fn law_order_is_transitive(a: Seq<u8>, b: Seq<u8>, c: Seq<u8>)
    requires
        precedes(a, b),
        precedes(b, c),
    ensures
        precedes(a, c),
{
    let first = choose|k: int| parts_at(a, b, k);
    let second = choose|k: int| parts_at(b, c, k);
    let k = if first <= second {
        first
    } else {
        second
    };
    assert(a.subrange(0, k) =~= c.subrange(0, k)) by {
        assert forall|i: int| 0 <= i < k implies a[i] == c[i] by {
            assert(b.subrange(0, second)[i] == c.subrange(0, second)[i]);
        }
    }
    if first < second {
        assert(b.subrange(0, second)[first] == c.subrange(0, second)[first]);
    } else if second < first {
        assert(a.subrange(0, first)[second] == b.subrange(0, first)[second]);
    }
    assert(parts_at(a, c, k));
}

/// Compares two byte strings lexicographically.
pub fn compare_bytes(a: &[u8], b: &[u8]) -> (order: Lexical)
    ensures
        order == lexical_order(a@, b@),
{
    let mut i: usize = 0;
    while i < a.len() && i < b.len()
        invariant
            i <= a@.len(),
            i <= b@.len(),
            a@.subrange(0, i as int) == b@.subrange(0, i as int),
        decreases a@.len() - i,
    {
        if a[i] < b[i] {
            assert(parts_at(a@, b@, i as int));
            return Lexical::Before;
        }
        if a[i] > b[i] {
            proof {
                lemma_not_before(a@, b@, i as int);
            }
            return Lexical::After;
        }
        i = i + 1;
    }
    if a.len() < b.len() {
        assert(parts_at(a@, b@, i as int));
        Lexical::Before
    } else if a.len() > b.len() {
        proof {
            lemma_not_before(a@, b@, i as int);
        }
        Lexical::After
    } else {
        assert(a@ =~= a@.subrange(0, i as int));
        assert(b@ =~= b@.subrange(0, i as int));
        Lexical::Equal
    }
}
} // verus!
