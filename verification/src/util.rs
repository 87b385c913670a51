//! Helpers shared by the column schemas.

use vstd::prelude::*;

verus! {

/// The array that holds each index at that index: `[0, 1, .., N - 1]`.
pub fn indices_arr<const N: usize>() -> (arr: [usize; N])
    ensures
        forall|i: int| 0 <= i < N ==> #[trigger] arr@[i] == i,
{
    let mut arr = [0usize;N];
    let mut i: usize = 0;
    while i < N
        invariant
            0 <= i <= N,
            forall|k: int| 0 <= k < i ==> #[trigger] arr@[k] == k,
        decreases N - i,
    {
        arr[i] = i;
        i += 1;
    }
    arr
}

/// Appends every item of `items` to `row`, in order.
pub fn push_all<T: Copy>(row: &mut Vec<T>, items: &[T])
    ensures
        final(row)@ == old(row)@ + items@,
{
    let mut i: usize = 0;
    while i < items.len()
        invariant
            0 <= i <= items@.len(),
            row@ == old(row)@ + items@.take(i as int),
        decreases items@.len() - i,
    {
        row.push(items[i]);
        assert(row@ =~= old(row)@ + items@.take(i as int + 1));
        i += 1;
    }
    assert(items@.take(i as int) =~= items@);
}

} // verus!
