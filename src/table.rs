//! The grouping table: every distinct key seen so far, each under a group
//! number given in order of first appearance.
use crate::index::{HashPolicy, KeyIndex};
use crate::order::{
    bytes_lt, compare_bytes, lemma_bytes_lt_irreflexive, lemma_bytes_lt_total,
    lemma_bytes_lt_transitive,
};
use vstd::prelude::*;
use vstd::slice::slice_to_vec;

verus! {

/// No key occurs twice.
pub open spec fn distinct_keys(keys: Seq<Seq<u8>>) -> bool {
    forall|i: int, j: int| 0 <= i < keys.len() && 0 <= j < keys.len() && i != j ==> keys[i] != keys[j]
}

/// `ord` lists every group number of `keys` once, by ascending key.
pub open spec fn is_sorted_order(keys: Seq<Seq<u8>>, ord: Seq<usize>) -> bool {
    &&& ord.len() == keys.len()
    &&& forall|i: int| 0 <= i < ord.len() ==> ord[i] < keys.len()
    &&& forall|i: int, j: int|
        0 <= i < j < ord.len() ==> bytes_lt(keys[ord[i] as int], keys[ord[j] as int])
    &&& forall|k: usize| k < keys.len() ==> #[trigger] ord.contains(k)
}

proof fn lemma_sorted_prefix_agree(keys: Seq<Seq<u8>>, o1: Seq<usize>, o2: Seq<usize>, n: int)
    requires
        distinct_keys(keys),
        is_sorted_order(keys, o1),
        is_sorted_order(keys, o2),
        0 <= n <= o1.len(),
    ensures
        forall|i: int| 0 <= i < n ==> o1[i] == o2[i],
    decreases n,
{
    if n > 0 {
        lemma_sorted_prefix_agree(keys, o1, o2, n - 1);
        let i = n - 1;
        let a = o1[i];
        let b = o2[i];
        if a != b {
            lemma_bytes_lt_total(keys[a as int], keys[b as int]);
            if bytes_lt(keys[a as int], keys[b as int]) {
                assert(o2.contains(a));
                let j = choose|j: int| 0 <= j < o2.len() && o2[j] == a;
                if j < i {
                    assert(o1[j] == a);
                    lemma_bytes_lt_irreflexive(keys[a as int]);
                } else {
                    assert(bytes_lt(keys[b as int], keys[a as int]));
                    lemma_bytes_lt_transitive(keys[a as int], keys[b as int], keys[a as int]);
                    lemma_bytes_lt_irreflexive(keys[a as int]);
                }
            } else {
                assert(o1.contains(b));
                let j = choose|j: int| 0 <= j < o1.len() && o1[j] == b;
                if j < i {
                    assert(o2[j] == b);
                    lemma_bytes_lt_irreflexive(keys[b as int]);
                } else {
                    assert(bytes_lt(keys[a as int], keys[b as int]));
                    lemma_bytes_lt_transitive(keys[b as int], keys[a as int], keys[b as int]);
                    lemma_bytes_lt_irreflexive(keys[b as int]);
                }
            }
        }
    }
}

/// There is one order by ascending key: two orders of the same distinct keys
/// are equal, so the report depends on the set of groups alone, not on how a
/// hash table walks or hashes them.
pub proof fn lemma_sorted_order_unique(keys: Seq<Seq<u8>>, o1: Seq<usize>, o2: Seq<usize>)
    requires
        distinct_keys(keys),
        is_sorted_order(keys, o1),
        is_sorted_order(keys, o2),
    ensures
        o1 == o2,
{
    lemma_sorted_prefix_agree(keys, o1, o2, o1.len() as int);
    assert(o1 =~= o2);
}

/// An order by ascending key names no group twice, and no key twice.
pub proof fn lemma_sorted_order_no_duplicates(keys: Seq<Seq<u8>>, ord: Seq<usize>)
    requires
        is_sorted_order(keys, ord),
    ensures
        forall|i: int, j: int|
            0 <= i < j < ord.len() ==> ord[i] != ord[j] && keys[ord[i] as int] != keys[ord[j] as int],
{
    assert forall|i: int, j: int| 0 <= i < j < ord.len() implies ord[i] != ord[j]
        && keys[ord[i] as int] != keys[ord[j] as int] by {
        lemma_bytes_lt_irreflexive(keys[ord[i] as int]);
    }
}

/// The keys in the order in which their groups were opened.
pub struct GroupTable {
    keys: Vec<Vec<u8>>,
    index: KeyIndex,
}

impl View for GroupTable {
    type V = Seq<Seq<u8>>;

    closed spec fn view(&self) -> Seq<Seq<u8>> {
        self.keys@.map_values(|k: Vec<u8>| k@)
    }
}

impl GroupTable {
    /// The index maps each key to its own group number and holds nothing else.
    pub closed spec fn wf(&self) -> bool {
        &&& distinct_keys(self@)
        &&& forall|i: int|
            0 <= i < self@.len() ==> #[trigger] self.index.entries().contains_key(self@[i])
                && self.index.entries()[self@[i]] == i
        &&& forall|k: Seq<u8>| #[trigger]
            self.index.entries().contains_key(k) ==> self.index.entries()[k] < self@.len()
                && self@[self.index.entries()[k] as int] == k
    }

    /// A well-formed table holds each key once.
    pub proof fn lemma_keys_distinct(&self)
        requires
            self.wf(),
        ensures
            distinct_keys(self@),
    {
    }

    /// An empty table that hashes keys with the given function.
    pub fn new(policy: HashPolicy) -> (r: GroupTable)
        ensures
            r.wf(),
            r@ == Seq::<Seq<u8>>::empty(),
    {
        let r = GroupTable { keys: Vec::new(), index: KeyIndex::new(policy) };
        assert(r@ =~= Seq::<Seq<u8>>::empty());
        r
    }

    /// The number of groups.
    pub fn len(&self) -> (r: usize)
        ensures
            r == self@.len(),
    {
        self.keys.len()
    }

    /// The key of group `i`.
    pub fn key(&self, i: usize) -> (r: &[u8])
        requires
            i < self@.len(),
        ensures
            r@ == self@[i as int],
    {
        self.keys[i].as_slice()
    }

    /// The group of `key`, opened as the next group when the key is new.
    pub fn observe(&mut self, key: &[u8]) -> (r: usize)
        requires
            old(self).wf(),
            old(self)@.len() < usize::MAX,
        ensures
            final(self).wf(),
            old(self)@.contains(key@) ==> final(self)@ == old(self)@ && r < old(self)@.len()
                && old(self)@[r as int] == key@,
            !old(self)@.contains(key@) ==> final(self)@ == old(self)@.push(key@) && r
                == old(self)@.len(),
    {
        match self.index.get(key) {
            Some(i) => {
                assert(self@[i as int] == key@);
                i
            },
            None => {
                let ghost old_view = self@;
                assert(!old_view.contains(key@)) by {
                    if old_view.contains(key@) {
                        let j = choose|j: int| 0 <= j < old_view.len() && old_view[j] == key@;
                        assert(self.index.entries().contains_key(old_view[j]));
                    }
                }
                let n = self.keys.len();
                self.keys.push(slice_to_vec(key));
                self.index.insert(slice_to_vec(key), n);
                assert(self@ =~= old_view.push(key@));
                n
            },
        }
    }

    /// The group numbers by ascending key.
    pub fn sorted_order(&self) -> (r: Vec<usize>)
        requires
            self.wf(),
        ensures
            is_sorted_order(self@, r@),
    {
        let n = self.keys.len();
        let ghost keys = self@;
        let mut ord: Vec<usize> = Vec::new();
        let mut k: usize = 0;
        while k < n
            invariant
                n == keys.len(),
                keys == self@,
                distinct_keys(keys),
                0 <= k <= n,
                ord@.len() == k,
                forall|i: int| 0 <= i < ord@.len() ==> ord@[i] < k,
                forall|i: int, j: int|
                    0 <= i < j < ord@.len() ==> bytes_lt(
                        keys[ord@[i] as int],
                        keys[ord@[j] as int],
                    ),
                forall|m: usize| m < k ==> #[trigger] ord@.contains(m),
            decreases n - k,
        {
            let mut p: usize = 0;
            let mut found = false;
            while p < ord.len() && !found
                invariant
                    n == keys.len(),
                    keys == self@,
                    distinct_keys(keys),
                    k < n,
                    ord@.len() == k,
                    forall|i: int| 0 <= i < ord@.len() ==> ord@[i] < k,
                    0 <= p <= ord@.len(),
                    forall|q: int| 0 <= q < p ==> bytes_lt(keys[ord@[q] as int], keys[k as int]),
                    found ==> p < ord@.len() && bytes_lt(keys[k as int], keys[ord@[p as int] as int]),
                decreases ord@.len() - p + (if found { 0int } else { 1int }),
            {
                let c = compare_bytes(self.keys[ord[p]].as_slice(), self.keys[k].as_slice());
                if c == -1 {
                    p = p + 1;
                } else {
                    assert(keys[ord@[p as int] as int] != keys[k as int]);
                    found = true;
                }
            }
            let ghost before = ord@;
            ord.insert(p, k);
            proof {
                assert(ord@ == before.insert(p as int, k));
                assert forall|i: int, j: int| 0 <= i < j < ord@.len() implies bytes_lt(
                    keys[ord@[i] as int],
                    keys[ord@[j] as int],
                ) by {
                    if j < p {
                    } else if j == p {
                    } else if i < p {
                        assert(ord@[j] == before[j - 1]);
                        assert(bytes_lt(keys[before[i] as int], keys[k as int]));
                        if p < before.len() {
                            assert(found);
                            assert(bytes_lt(keys[k as int], keys[before[p as int] as int]));
                            if j - 1 > p {
                                lemma_bytes_lt_transitive(
                                    keys[k as int],
                                    keys[before[p as int] as int],
                                    keys[before[j - 1] as int],
                                );
                            }
                            lemma_bytes_lt_transitive(
                                keys[before[i] as int],
                                keys[k as int],
                                keys[before[j - 1] as int],
                            );
                        }
                    } else if i == p {
                        assert(found);
                        if j - 1 > p {
                            lemma_bytes_lt_transitive(
                                keys[k as int],
                                keys[before[p as int] as int],
                                keys[before[j - 1] as int],
                            );
                        }
                    } else {
                        assert(ord@[i] == before[i - 1]);
                        assert(ord@[j] == before[j - 1]);
                    }
                }
                assert forall|m: usize| m < k + 1 implies #[trigger] ord@.contains(m) by {
                    if m == k {
                        assert(ord@[p as int] == m);
                    } else {
                        assert(before.contains(m));
                        let i = choose|i: int| 0 <= i < before.len() && before[i] == m;
                        if i < p {
                            assert(ord@[i] == m);
                        } else {
                            assert(ord@[i + 1] == m);
                        }
                    }
                }
            }
            k = k + 1;
        }
        ord
    }
}

} // verus!
