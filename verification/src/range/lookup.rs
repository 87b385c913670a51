//! The lookups that other chips make into the range checker's table.
//!
//! Chips submit the values that they claim to be in range. The table's side
//! of the argument is a multiplicity for each entry. The two reconcile when
//! every value submitted is an entry of the table and each entry's
//! multiplicity is the number of times it was submitted.

use crate::range::stark::table;
use crate::range::RangeCheckerChip;
use vstd::prelude::*;

verus! {

/// How often `v` occurs among `values`.
pub open spec fn occurrences(values: Seq<u64>, v: int) -> nat
    decreases values.len(),
{
    if values.len() == 0 {
        0
    } else {
        occurrences(values.drop_last(), v) + if values.last() == v {
            1nat
        } else {
            0nat
        }
    }
}

/// The sum of the first `n` multiplicities.
pub open spec fn total(mult: Seq<u64>, n: int) -> int
    decreases n,
{
    if n <= 0 {
        0
    } else {
        total(mult, n - 1) + mult[n - 1]
    }
}

/// Every value submitted is an entry of the table for `max`.
pub open spec fn all_in_range(submitted: Seq<u64>, max: u32) -> bool {
    forall|i: int| 0 <= i < submitted.len() ==> #[trigger] submitted[i] < max
}

/// The multiplicities are those of the values submitted: one for each
/// entry of the table, each the number of times the entry was submitted.
pub open spec fn counts(mult: Seq<u64>, submitted: Seq<u64>, max: u32) -> bool {
    mult.len() == max && forall|k: int| 0 <= k < max ==> #[trigger] mult[k] == occurrences(submitted, k)
}

/// The lookups reconcile with the table.
pub open spec fn reconciles(submitted: Seq<u64>, mult: Seq<u64>, max: u32) -> bool {
    all_in_range(submitted, max) && counts(mult, submitted, max)
}

/// The values that chips have submitted for lookup, in the order of their
/// submission.
pub struct RangeBus {
    submitted: Vec<u64>,
}

impl View for RangeBus {
    type V = Seq<u64>;

    closed spec fn view(&self) -> Seq<u64> {
        self.submitted@
    }
}

impl RangeBus {
    /// A bus on which nothing was submitted.
    pub fn new() -> (bus: Self)
        ensures
            bus@ == Seq::<u64>::empty(),
    {
        RangeBus { submitted: Vec::new() }
    }

    /// Submits `v` for lookup.
    pub fn submit(&mut self, v: u64)
        ensures
            final(self)@ == old(self)@.push(v),
    {
        self.submitted.push(v);
    }

    /// The values submitted so far.
    pub fn submitted(&self) -> (values: &Vec<u64>)
        ensures
            values@ == self@,
    {
        &self.submitted
    }
}

/// One more occurrence of `v` raises the count of `v` by one and no other.
proof fn lemma_occurrences_push(values: Seq<u64>, v: u64, k: int)
    ensures
        occurrences(values.push(v), k) == occurrences(values, k) + if v == k {
            1nat
        } else {
            0nat
        },
{
    assert(values.push(v).drop_last() == values);
}

/// No value occurs more often than there are values.
proof fn lemma_occurrences_bound(values: Seq<u64>, k: int)
    ensures
        occurrences(values, k) <= values.len(),
    decreases values.len(),
{
    if values.len() > 0 {
        lemma_occurrences_bound(values.drop_last(), k);
    }
}

/// Raising one multiplicity by one raises the total by one.
proof fn lemma_total_update(mult: Seq<u64>, k: int, n: int)
    requires
        0 <= k < mult.len(),
        0 <= n <= mult.len(),
        mult[k] < u64::MAX,
    ensures
        total(mult.update(k, (mult[k] + 1) as u64), n) == total(mult, n) + if k < n {
            1int
        } else {
            0int
        },
    decreases n,
{
    if n > 0 {
        lemma_total_update(mult, k, n - 1);
    }
}

/// The total of multiplicities that are all zero is zero.
proof fn lemma_total_zero(mult: Seq<u64>, n: int)
    requires
        0 <= n <= mult.len(),
        forall|k: int| 0 <= k < mult.len() ==> #[trigger] mult[k] == 0,
    ensures
        total(mult, n) == 0,
    decreases n,
{
    if n > 0 {
        lemma_total_zero(mult, n - 1);
    }
}

/// The multiplicities of `submitted` in the table of the integers below
/// `max`: how often each entry was looked up. `None` where a value
/// submitted is no entry of the table.
pub fn count_lookups(submitted: &[u64], max: u32) -> (mult: Option<Vec<u64>>)
    ensures
        mult.is_some() <==> all_in_range(submitted@, max),
        mult.is_some() ==> counts(mult.unwrap()@, submitted@, max) && total(
            mult.unwrap()@,
            max as int,
        ) == submitted@.len(),
{
    let mut mult: Vec<u64> = Vec::new();
    let mut k: u32 = 0;
    while k < max
        invariant
            0 <= k <= max,
            mult@.len() == k,
            forall|j: int| 0 <= j < k ==> #[trigger] mult@[j] == 0,
        decreases max - k,
    {
        mult.push(0);
        k += 1;
    }
    proof {
        lemma_total_zero(mult@, max as int);
    }
    let mut i: usize = 0;
    while i < submitted.len()
        invariant
            0 <= i <= submitted@.len(),
            mult@.len() == max,
            all_in_range(submitted@.take(i as int), max),
            forall|j: int|
                0 <= j < max ==> #[trigger] mult@[j] == occurrences(submitted@.take(i as int), j),
            total(mult@, max as int) == i,
        decreases submitted@.len() - i,
    {
        let v = submitted[i];
        proof {
            assert(submitted@.take(i as int + 1) == submitted@.take(i as int).push(v));
        }
        if v >= max as u64 {
            proof {
                assert(submitted@[i as int] >= max);
            }
            return None;
        }
        let slot = v as usize;
        let old_count = mult[slot];
        proof {
            lemma_occurrences_bound(submitted@.take(i as int), v as int);
            lemma_total_update(mult@, slot as int, max as int);
            assert forall|j: int| 0 <= j < max implies #[trigger] mult@.update(
                slot as int,
                (old_count + 1) as u64,
            )[j] == occurrences(submitted@.take(i as int + 1), j) by {
                lemma_occurrences_push(submitted@.take(i as int), v, j);
            }
            assert forall|j: int| 0 <= j < i + 1 implies #[trigger] submitted@.take(i as int + 1)[j]
                < max by {
                if j < i {
                    assert(submitted@.take(i as int)[j] < max);
                }
            }
        }
        mult.set(slot, old_count + 1);
        i += 1;
    }
    proof {
        assert(submitted@.take(i as int) == submitted@);
    }
    Some(mult)
}

/// Whether the lookups `submitted` reconcile with the multiplicities `mult`
/// that the side of the table for the integers below `max` claims.
pub fn reconcile_lookups(submitted: &[u64], mult: &[u64], max: u32) -> (ok: bool)
    ensures
        ok == reconciles(submitted@, mult@, max),
{
    match count_lookups(submitted, max) {
        None => false,
        Some(counted) => {
            if mult.len() != counted.len() {
                return false;
            }
            let mut k: usize = 0;
            while k < mult.len()
                invariant
                    0 <= k <= mult@.len(),
                    mult@.len() == counted@.len(),
                    all_in_range(submitted@, max),
                    counts(counted@, submitted@, max),
                    forall|j: int| 0 <= j < k ==> #[trigger] mult@[j] == counted@[j],
                decreases mult@.len() - k,
            {
                if mult[k] != counted[k] {
                    proof {
                        assert(counted@[k as int] == occurrences(submitted@, k as int));
                    }
                    return false;
                }
                k += 1;
            }
            true
        },
    }
}

impl<const MAX: u32> RangeCheckerChip<MAX> {
    /// The multiplicities of the values submitted: how often each entry of
    /// the table was looked up. `None` where a value submitted is no entry
    /// of the table.
    pub fn multiplicities(&self, bus: &RangeBus) -> (mult: Option<Vec<u64>>)
        ensures
            mult.is_some() <==> all_in_range(bus@, MAX),
            mult.is_some() ==> counts(mult.unwrap()@, bus@, MAX) && total(
                mult.unwrap()@,
                MAX as int,
            ) == bus@.len(),
    {
        count_lookups(bus.submitted().as_slice(), MAX)
    }

    /// Whether the lookups on `bus` reconcile with the multiplicities
    /// `mult` that the table's side claims.
    pub fn reconcile(&self, bus: &RangeBus, mult: &[u64]) -> (ok: bool)
        ensures
            ok == reconciles(bus@, mult@, MAX),
    {
        reconcile_lookups(bus.submitted().as_slice(), mult, MAX)
    }
}

/// Lookups that reconcile are lookups of entries of the table: each value
/// submitted stands in the table, in the row of its own number. So a value
/// at or above the bound, once submitted, keeps the lookups from
/// reconciling whatever the multiplicities.
pub proof fn lemma_reconciled_in_table(submitted: Seq<u64>, mult: Seq<u64>, max: u32, i: int)
    requires
        reconciles(submitted, mult, max),
        0 <= i < submitted.len(),
    ensures
        submitted[i] < max,
        table(max)[submitted[i] as int] == submitted[i],
        mult[submitted[i] as int] >= 1,
{
    let v = submitted[i];
    lemma_occurs(submitted, i);
}

/// A value that stands among the values occurs at least once.
proof fn lemma_occurs(values: Seq<u64>, i: int)
    requires
        0 <= i < values.len(),
    ensures
        occurrences(values, values[i] as int) >= 1,
    decreases values.len(),
{
    if i < values.len() - 1 {
        lemma_occurs(values.drop_last(), i);
    }
}

/// How often the entries below `n` occur among `values`, all together.
pub open spec fn occurrences_below(values: Seq<u64>, n: int) -> int
    decreases n,
{
    if n <= 0 {
        0
    } else {
        occurrences_below(values, n - 1) + occurrences(values, n - 1)
    }
}

/// One more value raises the count of the entries below `n` by one where
/// the value is below `n`, and not at all where it is not.
proof fn lemma_below_push(values: Seq<u64>, v: u64, n: int)
    requires
        0 <= n,
    ensures
        occurrences_below(values.push(v), n) == occurrences_below(values, n) + if v < n {
            1int
        } else {
            0int
        },
    decreases n,
{
    if n > 0 {
        lemma_below_push(values, v, n - 1);
        lemma_occurrences_push(values, v, n - 1);
    }
}

/// Nothing occurs among no values.
proof fn lemma_below_empty(n: int)
    ensures
        occurrences_below(Seq::<u64>::empty(), n) == 0,
    decreases n,
{
    if n > 0 {
        lemma_below_empty(n - 1);
    }
}

/// Values that are all entries of the table occur, as entries, as often as
/// there are values.
proof fn lemma_below_all(values: Seq<u64>, max: u32)
    requires
        all_in_range(values, max),
    ensures
        occurrences_below(values, max as int) == values.len(),
    decreases values.len(),
{
    if values.len() == 0 {
        assert(values =~= Seq::<u64>::empty());
        lemma_below_empty(max as int);
    } else {
        let rest = values.drop_last();
        assert forall|i: int| 0 <= i < rest.len() implies #[trigger] rest[i] < max by {
            assert(rest[i] == values[i]);
        }
        lemma_below_all(rest, max);
        assert(values == rest.push(values.last()));
        assert(values[values.len() - 1] < max);
        lemma_below_push(rest, values.last(), max as int);
    }
}

/// Multiplicities that count the values submitted add up, over the entries
/// below `n`, to the occurrences of those entries.
proof fn lemma_total_counts(submitted: Seq<u64>, mult: Seq<u64>, max: u32, n: int)
    requires
        counts(mult, submitted, max),
        0 <= n <= max,
    ensures
        total(mult, n) == occurrences_below(submitted, n),
    decreases n,
{
    if n > 0 {
        lemma_total_counts(submitted, mult, max, n - 1);
        assert(mult[n - 1] == occurrences(submitted, n - 1));
    }
}

/// Lookups that reconcile balance: the multiplicities on the table's side
/// add up to the number of values submitted.
pub proof fn lemma_reconciled_totals(submitted: Seq<u64>, mult: Seq<u64>, max: u32)
    requires
        reconciles(submitted, mult, max),
    ensures
        total(mult, max as int) == submitted.len(),
{
    lemma_total_counts(submitted, mult, max, max as int);
    lemma_below_all(submitted, max);
}

} // verus!
