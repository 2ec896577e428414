//! Byte-wise lexicographic order on keys.
use vstd::prelude::*;

verus! {

/// `a` and `b` agree before position `i`, and at `i` either `a` has ended
/// while `b` goes on, or both go on and `a` has the smaller byte.
pub open spec fn less_at(a: Seq<u8>, b: Seq<u8>, i: int) -> bool {
    &&& 0 <= i <= a.len()
    &&& i <= b.len()
    &&& forall|j: int| 0 <= j < i ==> a[j] == b[j]
    &&& (i == a.len() && i < b.len()) || (i < a.len() && i < b.len() && a[i] < b[i])
}

/// `a` comes strictly before `b` in byte-wise lexicographic order.
pub open spec fn bytes_lt(a: Seq<u8>, b: Seq<u8>) -> bool {
    exists|i: int| less_at(a, b, i)
}

/// No key comes before itself.
pub proof fn lemma_bytes_lt_irreflexive(a: Seq<u8>)
    ensures
        !bytes_lt(a, a),
{
}

/// The order is transitive.
pub proof fn lemma_bytes_lt_transitive(a: Seq<u8>, b: Seq<u8>, c: Seq<u8>)
    requires
        bytes_lt(a, b),
        bytes_lt(b, c),
    ensures
        bytes_lt(a, c),
{
    let i = choose|i: int| less_at(a, b, i);
    let j = choose|j: int| less_at(b, c, j);
    let k = if i <= j { i } else { j };
    assert(less_at(a, c, k));
}

/// Two different keys are ordered one way or the other.
pub proof fn lemma_bytes_lt_total(a: Seq<u8>, b: Seq<u8>)
    requires
        a != b,
    ensures
        bytes_lt(a, b) || bytes_lt(b, a),
    decreases a.len(),
{
    if a.len() == 0 {
        if b.len() == 0 {
            assert(a =~= b);
        }
        assert(less_at(a, b, 0));
    } else if b.len() == 0 {
        assert(less_at(b, a, 0));
    } else if a[0] != b[0] {
        if a[0] < b[0] {
            assert(less_at(a, b, 0));
        } else {
            assert(less_at(b, a, 0));
        }
    } else {
        let a1 = a.drop_first();
        let b1 = b.drop_first();
        assert(a1 != b1) by {
            if a1 == b1 {
                assert(a =~= seq![a[0]] + a1);
                assert(b =~= seq![b[0]] + b1);
            }
        }
        lemma_bytes_lt_total(a1, b1);
        if bytes_lt(a1, b1) {
            let i = choose|i: int| less_at(a1, b1, i);
            assert forall|j: int| 0 <= j < i + 1 implies a[j] == b[j] by {
                if j > 0 {
                    assert(a[j] == a1[j - 1] && b[j] == b1[j - 1]);
                }
            }
            assert(less_at(a, b, i + 1));
        } else {
            let i = choose|i: int| less_at(b1, a1, i);
            assert forall|j: int| 0 <= j < i + 1 implies b[j] == a[j] by {
                if j > 0 {
                    assert(a[j] == a1[j - 1] && b[j] == b1[j - 1]);
                }
            }
            assert(less_at(b, a, i + 1));
        }
    }
}

/// Compares two keys byte-wise: `-1` when `a` comes first, `1` when `b`
/// does, `0` when they are equal.
pub fn compare_bytes(a: &[u8], b: &[u8]) -> (r: i8)
    ensures
        r == -1 <==> bytes_lt(a@, b@),
        r == 1 <==> bytes_lt(b@, a@),
        r == 0 <==> a@ == b@,
        -1 <= r <= 1,
{
    let mut i: usize = 0;
    while i < a.len() && i < b.len()
        invariant
            0 <= i <= a@.len(),
            i <= b@.len(),
            forall|j: int| 0 <= j < i ==> a@[j] == b@[j],
        decreases a@.len() - i,
    {
        if a[i] != b[i] {
            proof {
                lemma_bytes_lt_irreflexive(a@);
                if a@[i as int] < b@[i as int] {
                    assert(less_at(a@, b@, i as int));
                    assert(!bytes_lt(b@, a@)) by {
                        if bytes_lt(b@, a@) {
                            lemma_bytes_lt_transitive(a@, b@, a@);
                        }
                    }
                } else {
                    assert(less_at(b@, a@, i as int));
                    assert(!bytes_lt(a@, b@)) by {
                        if bytes_lt(a@, b@) {
                            lemma_bytes_lt_transitive(a@, b@, a@);
                        }
                    }
                }
            }
            return if a[i] < b[i] { -1 } else { 1 };
        }
        i = i + 1;
    }
    proof {
        lemma_bytes_lt_irreflexive(a@);
        lemma_bytes_lt_irreflexive(b@);
    }
    if a.len() < b.len() {
        proof {
            assert(less_at(a@, b@, i as int));
            assert(!bytes_lt(b@, a@)) by {
                if bytes_lt(b@, a@) {
                    lemma_bytes_lt_transitive(a@, b@, a@);
                }
            }
        }
        -1
    } else if b.len() < a.len() {
        proof {
            assert(less_at(b@, a@, i as int));
            assert(!bytes_lt(a@, b@)) by {
                if bytes_lt(a@, b@) {
                    lemma_bytes_lt_transitive(a@, b@, a@);
                }
            }
        }
        1
    } else {
        assert(a@ =~= b@);
        0
    }
}

} // verus!
