//! Slice and vector drills: sum, dedup, filter.
use vstd::prelude::*;

verus! {

/// Sum of the elements of `s`, as a mathematical integer.
pub open spec fn sum_of(s: Seq<i32>) -> int
    decreases s.len(),
{
    if s.len() == 0 {
        0
    } else {
        sum_of(s.drop_last()) + s.last() as int
    }
}

/// Every partial sum of `s` (taken from the front) fits in an `i32`.
pub open spec fn partial_sums_fit(s: Seq<i32>) -> bool {
    forall|i: int| 0 <= i <= s.len() ==> i32::MIN <= #[trigger] sum_of(s.take(i)) <= i32::MAX
}

/// The first occurrence of each distinct element of `s`, in order.
pub open spec fn dedup_of(s: Seq<i32>) -> Seq<i32>
    decreases s.len(),
{
    if s.len() == 0 {
        Seq::empty()
    } else {
        let d = dedup_of(s.drop_last());
        if d.contains(s.last()) {
            d
        } else {
            d.push(s.last())
        }
    }
}

/// Computes the sum of all elements of `slice`.
pub fn sum(slice: &[i32]) -> (r: i32)
    requires
        partial_sums_fit(slice@),
    ensures
        r as int == sum_of(slice@),
{
    let mut count: i32 = 0;
    let mut i: usize = 0;
    while i < slice.len()
        invariant
            i <= slice@.len(),
            partial_sums_fit(slice@),
            count as int == sum_of(slice@.take(i as int)),
        decreases slice@.len() - i,
    {
        assert(slice@.take(i as int + 1).drop_last() =~= slice@.take(i as int));
        assert(i32::MIN <= sum_of(slice@.take(i as int + 1)) <= i32::MAX);
        count = count + slice[i];
        i = i + 1;
    }
    assert(slice@.take(slice@.len() as int) =~= slice@);
    count
}

fn contains_value(vs: &Vec<i32>, x: i32) -> (r: bool)
    ensures
        r == vs@.contains(x),
{
    let mut i: usize = 0;
    while i < vs.len()
        invariant
            i <= vs@.len(),
            forall|j: int| 0 <= j < i ==> vs@[j] != x,
        decreases vs@.len() - i,
    {
        if vs[i] == x {
            return true;
        }
        i = i + 1;
    }
    false
}

/// Keeps the first instance of each distinct element of `vs`, in the
/// order they come in.
pub fn dedup(vs: &Vec<i32>) -> (r: Vec<i32>)
    ensures
        r@ == dedup_of(vs@),
{
    let mut new_vs: Vec<i32> = Vec::new();
    let mut i: usize = 0;
    while i < vs.len()
        invariant
            i <= vs@.len(),
            new_vs@ == dedup_of(vs@.take(i as int)),
        decreases vs@.len() - i,
    {
        assert(vs@.take(i as int + 1).drop_last() =~= vs@.take(i as int));
        if !contains_value(&new_vs, vs[i]) {
            new_vs.push(vs[i]);
        }
        i = i + 1;
    }
    assert(vs@.take(vs@.len() as int) =~= vs@);
    new_vs
}

/// The elements of `vs` that satisfy `pred`, in the order they come in.
///
/// `pred` must be callable on every `i32` and must act as a function: one
/// argument never yields two different answers.
pub fn filter<F: Fn(i32) -> bool>(vs: &Vec<i32>, pred: &F) -> (r: Vec<i32>)
    requires
        forall|x: i32| pred.requires((x,)),
        forall|x: i32, a: bool, b: bool|
            pred.ensures((x,), a) && pred.ensures((x,), b) ==> a == b,
    ensures
        r@ == vs@.filter(|x: i32| pred.ensures((x,), true)),
{
    let ghost keep = |x: i32| pred.ensures((x,), true);
    let mut new_vs: Vec<i32> = Vec::new();
    let mut i: usize = 0;
    while i < vs.len()
        invariant
            i <= vs@.len(),
            forall|x: i32| pred.requires((x,)),
            forall|x: i32, a: bool, b: bool|
                pred.ensures((x,), a) && pred.ensures((x,), b) ==> a == b,
            keep == (|x: i32| pred.ensures((x,), true)),
            new_vs@ == vs@.take(i as int).filter(keep),
        decreases vs@.len() - i,
    {
        assert(vs@.take(i as int + 1).drop_last() =~= vs@.take(i as int));
        let x = vs[i];
        let b = pred(x);
        if b {
            new_vs.push(x);
        }
        proof {
            reveal(Seq::filter);
            assert(keep(x) == b);
        }
        assert(new_vs@ == vs@.take(i as int + 1).filter(keep));
        i = i + 1;
    }
    assert(vs@.take(vs@.len() as int) =~= vs@);
    new_vs
}

} // verus!
