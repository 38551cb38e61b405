use vstd::prelude::*;

verus! {

/// Sum of a sequence of unsigned integers.
pub open spec fn sum_of(s: Seq<u64>) -> nat
    decreases s.len(),
{
    if s.len() == 0 {
        0
    } else {
        sum_of(s.drop_last()) + s.last() as nat
    }
}

proof fn lemma_sum_bound(s: Seq<u64>)
    ensures
        sum_of(s) <= s.len() * u64::MAX,
    decreases s.len(),
{
    if s.len() > 0 {
        lemma_sum_bound(s.drop_last());
        assert(sum_of(s) <= s.len() * u64::MAX) by (nonlinear_arith)
            requires
                sum_of(s) == sum_of(s.drop_last()) + s.last() as nat,
                sum_of(s.drop_last()) <= (s.len() - 1) * u64::MAX,
                s.last() <= u64::MAX,
                s.len() >= 1;
    }
}

/// The sum of `arr`.
pub fn sum_all(arr: &[u64]) -> (r: u128)
    ensures
        r as nat == sum_of(arr@),
        sum_of(arr@) <= arr@.len() * u64::MAX,
{
    let n = arr.len();
    let mut total: u128 = 0;
    let mut i: usize = 0;
    while i < n
        invariant
            n == arr@.len(),
            i <= n,
            total as nat == sum_of(arr@.subrange(0, i as int)),
        decreases n - i,
    {
        proof {
            let p = arr@.subrange(0, i + 1);
            assert(p.drop_last() == arr@.subrange(0, i as int));
            lemma_sum_bound(arr@.subrange(0, i as int));
            assert(total + arr[i as int] <= (i + 1) * u64::MAX) by (nonlinear_arith)
                requires total <= i * u64::MAX, arr[i as int] <= u64::MAX;
            assert((i + 1) * u64::MAX < u128::MAX) by (nonlinear_arith)
                requires i < n, n <= usize::MAX;
        }
        total = total + arr[i] as u128;
        i = i + 1;
    }
    assert(arr@.subrange(0, n as int) == arr@);
    proof {
        lemma_sum_bound(arr@);
    }
    total
}

/// The arithmetic mean of `arr`, rounded down.
pub fn find_average(arr: &[u64]) -> (r: u64)
    requires
        arr@.len() > 0,
    ensures
        r as nat == sum_of(arr@) / arr@.len(),
{
    let n = arr.len();
    let total = sum_all(arr);
    proof {
        assert(total / (n as u128) <= u64::MAX) by (nonlinear_arith)
            requires total <= n * u64::MAX, n > 0;
    }
    (total / (n as u128)) as u64
}

/// A value whose equality can be tested against its view.
pub trait Tally: View + Sized {
    fn same(&self, other: &Self) -> (r: bool)
        ensures
            r == (self@ == other@);
}

impl Tally for i32 {
    fn same(&self, other: &i32) -> (r: bool) {
        *self == *other
    }
}

impl Tally for u64 {
    fn same(&self, other: &u64) -> (r: bool) {
        *self == *other
    }
}

impl Tally for String {
    fn same(&self, other: &String) -> (r: bool) {
        *self == *other
    }
}

/// How many items of `s` have the view `v`.
pub open spec fn tally<T: View>(s: Seq<T>, v: T::V) -> nat
    decreases s.len(),
{
    if s.len() == 0 {
        0
    } else {
        tally(s.drop_last(), v) + if s.last()@ == v { 1nat } else { 0nat }
    }
}

/// Index `i` holds a most frequent value of `s`, and no earlier item is as frequent.
pub open spec fn is_first_most_frequent<T: View>(s: Seq<T>, i: int) -> bool {
    &&& 0 <= i < s.len()
    &&& forall|j: int| 0 <= j < s.len() ==> tally(s, #[trigger] s[j]@) <= tally(s, s[i]@)
    &&& forall|j: int| 0 <= j < i ==> tally(s, #[trigger] s[j]@) < tally(s, s[i]@)
}

proof fn lemma_tally_le_len<T: View>(s: Seq<T>, v: T::V)
    ensures
        tally(s, v) <= s.len(),
    decreases s.len(),
{
    if s.len() > 0 {
        lemma_tally_le_len(s.drop_last(), v);
    }
}

/// How many items of `arr` equal `x`.
pub(crate) fn count_of<T: Tally>(arr: &[T], x: &T) -> (r: usize)
    ensures
        r as nat == tally(arr@, x@),
{
    let n = arr.len();
    let mut c: usize = 0;
    let mut j: usize = 0;
    while j < n
        invariant
            n == arr@.len(),
            j <= n,
            c as nat == tally(arr@.subrange(0, j as int), x@),
            c <= j,
        decreases n - j,
    {
        proof {
            assert(arr@.subrange(0, j + 1).drop_last() == arr@.subrange(0, j as int));
        }
        if arr[j].same(x) {
            c = c + 1;
        }
        j = j + 1;
    }
    assert(arr@.subrange(0, n as int) == arr@);
    c
}

/// The most frequent value of `arr`, the first in order among equally frequent
/// ones; `None` for an empty slice.
pub fn find_most_frequent_value<T: Tally>(arr: &[T]) -> (r: Option<&T>)
    ensures
        arr@.len() == 0 <==> r is None,
        r matches Some(v) ==> exists|i: int| is_first_most_frequent(arr@, i) && arr@[i] == *v,
{
    let n = arr.len();
    if n == 0 {
        return None;
    }
    let mut best: usize = 0;
    let mut best_count: usize = count_of(arr, &arr[0]);
    let mut i: usize = 1;
    while i < n
        invariant
            n == arr@.len(),
            1 <= i <= n,
            best < i,
            best_count as nat == tally(arr@, arr@[best as int]@),
            forall|j: int| 0 <= j < i ==> tally(arr@, #[trigger] arr@[j]@) <= best_count,
            forall|j: int| 0 <= j < best ==> tally(arr@, #[trigger] arr@[j]@) < best_count,
        decreases n - i,
    {
        let c = count_of(arr, &arr[i]);
        if c > best_count {
            best = i;
            best_count = c;
        }
        i = i + 1;
    }
    assert(is_first_most_frequent(arr@, best as int));
    Some(&arr[best])
}

} // verus!
