//! Axis ranges for benchmark plots: the extent of the measured input sizes,
//! unless the caller sets a bound.
use vstd::prelude::*;

verus! {

/// `m` is the least of `xs`.
pub open spec fn is_least(xs: Seq<i64>, m: i64) -> bool {
    xs.contains(m) && forall|i: int| 0 <= i < xs.len() ==> m <= xs[i]
}

/// `m` is the greatest of `xs`.
pub open spec fn is_greatest(xs: Seq<i64>, m: i64) -> bool {
    xs.contains(m) && forall|i: int| 0 <= i < xs.len() ==> xs[i] <= m
}

/// The range of the x-axis over the input sizes `xs`: from `x_min`, else
/// the least size, to `x_max`, else the greatest.
pub fn x_range(xs: &Vec<i64>, x_min: Option<i64>, x_max: Option<i64>) -> (r: (i64, i64))
    requires
        xs@.len() > 0,
    ensures
        match x_min {
            Some(v) => r.0 == v,
            None => is_least(xs@, r.0),
        },
        match x_max {
            Some(v) => r.1 == v,
            None => is_greatest(xs@, r.1),
        },
{
    let mut lo = xs[0];
    let mut hi = xs[0];
    let mut i: usize = 1;
    assert(xs@.take(1)[0] == lo);
    while i < xs.len()
        invariant
            1 <= i <= xs@.len(),
            is_least(xs@.take(i as int), lo),
            is_greatest(xs@.take(i as int), hi),
        decreases xs@.len() - i,
    {
        let ghost t = xs@.take(i as int);
        if xs[i] < lo {
            lo = xs[i];
        }
        if xs[i] > hi {
            hi = xs[i];
        }
        i = i + 1;
        proof {
            let t1 = xs@.take(i as int);
            assert(t1 =~= t.push(xs@[i - 1]));
            assert(t1.contains(lo)) by {
                if lo == xs@[i - 1] {
                    assert(t1[i - 1] == lo);
                } else {
                    let j = choose|j: int| 0 <= j < t.len() && t[j] == lo;
                    assert(t1[j] == lo);
                }
            }
            assert(t1.contains(hi)) by {
                if hi == xs@[i - 1] {
                    assert(t1[i - 1] == hi);
                } else {
                    let j = choose|j: int| 0 <= j < t.len() && t[j] == hi;
                    assert(t1[j] == hi);
                }
            }
        }
    }
    assert(xs@.take(i as int) =~= xs@);
    let a = match x_min {
        Some(v) => v,
        None => lo,
    };
    let b = match x_max {
        Some(v) => v,
        None => hi,
    };
    (a, b)
}

} // verus!
