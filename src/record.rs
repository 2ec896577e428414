//! Records: one input line, cut into a key segment and a value segment.
use vstd::prelude::*;
use vstd::slice::{slice_subrange, slice_to_vec};

verus! {

/// The byte that separates a record's key from its value.
pub const DELIMITER: u8 = 59;

/// The byte that ends a line.
pub const NEWLINE: u8 = 10;

/// `i` is the position of the first delimiter of `s`.
pub open spec fn is_first_delimiter(s: Seq<u8>, i: int) -> bool {
    &&& 0 <= i < s.len()
    &&& s[i] == DELIMITER
    &&& forall|j: int| 0 <= j < i ==> s[j] != DELIMITER
}

/// The position of the first delimiter of `s`, when it has one.
pub open spec fn delimiter_index(s: Seq<u8>) -> int {
    choose|i: int| is_first_delimiter(s, i)
}

/// The key segment of a record: the bytes before its first delimiter.
pub open spec fn key_part(s: Seq<u8>) -> Seq<u8> {
    s.take(delimiter_index(s))
}

/// The value segment of a record: the bytes after its first delimiter.
pub open spec fn value_part(s: Seq<u8>) -> Seq<u8> {
    s.skip(delimiter_index(s) + 1)
}

/// A record splits as `k ; v` with no delimiter in `k` exactly when `k` and
/// `v` are its key and value segments.
pub proof fn lemma_split_parts(s: Seq<u8>, k: Seq<u8>, v: Seq<u8>)
    requires
        s == k + seq![DELIMITER] + v,
        !k.contains(DELIMITER),
    ensures
        k == key_part(s),
        v == value_part(s),
{
    assert forall|j: int| 0 <= j < k.len() implies s[j] != DELIMITER by {
        assert(s[j] == k[j]);
        if k[j] == DELIMITER {
            assert(k.contains(DELIMITER));
        }
    }
    assert(is_first_delimiter(s, k.len() as int));
    let i = delimiter_index(s);
    assert(is_first_delimiter(s, i));
    if i < k.len() {
        assert(s[i] != DELIMITER);
    } else if i > k.len() {
        assert(s[k.len() as int] == DELIMITER);
    }
    assert(k =~= s.take(i));
    assert(v =~= s.skip(i + 1));
}

/// The content of a chunk that a line reader hands out: the chunk without
/// its terminating newline, if it has one.
pub open spec fn record_content(chunk: Seq<u8>) -> Seq<u8> {
    if chunk.len() > 0 && chunk.last() == NEWLINE {
        chunk.drop_last()
    } else {
        chunk
    }
}

/// Finds the first delimiter of a record.
pub fn find_delimiter(line: &[u8]) -> (r: Option<usize>)
    ensures
        match r {
            Some(i) => is_first_delimiter(line@, i as int),
            None => !line@.contains(DELIMITER),
        },
{
    let mut i: usize = 0;
    while i < line.len()
        invariant
            0 <= i <= line@.len(),
            forall|j: int| 0 <= j < i ==> line@[j] != DELIMITER,
        decreases line@.len() - i,
    {
        if line[i] == DELIMITER {
            return Some(i);
        }
        i = i + 1;
    }
    None
}

/// Splits a record at its first delimiter into `(key, value)`; a further
/// delimiter stays in the value. `None` when the record has no delimiter.
pub fn split_record(line: &[u8]) -> (r: Option<(Vec<u8>, Vec<u8>)>)
    ensures
        r is None <==> !line@.contains(DELIMITER),
        r matches Some((k, v)) ==> {
            &&& line@ == k@ + seq![DELIMITER] + v@
            &&& !k@.contains(DELIMITER)
        },
{
    match find_delimiter(line) {
        None => None,
        Some(i) => {
            let n = line.len();
            assert(i < n);
            let key = slice_to_vec(slice_subrange(line, 0, i));
            let value = slice_to_vec(slice_subrange(line, i + 1, n));
            proof {
                assert(line@ =~= key@ + seq![DELIMITER] + value@);
                assert(!key@.contains(DELIMITER)) by {
                    if key@.contains(DELIMITER) {
                        let j = choose|j: int| 0 <= j < key@.len() && key@[j] == DELIMITER;
                        assert(line@[j] == DELIMITER);
                    }
                }
            }
            Some((key, value))
        },
    }
}

/// The record carried by one chunk of a line reader: the chunk without its
/// trailing newline. A final chunk that ends without one is kept whole.
pub fn record_of(chunk: &[u8]) -> (r: Vec<u8>)
    ensures
        r@ == record_content(chunk@),
        chunk@.len() > 0 && chunk@.last() != NEWLINE ==> r@ == chunk@,
{
    let n = chunk.len();
    if n > 0 && chunk[n - 1] == NEWLINE {
        slice_to_vec(slice_subrange(chunk, 0, n - 1))
    } else {
        slice_to_vec(chunk)
    }
}

} // verus!
