//! Hourly bucketing of activity and the per-hour median profile.

use vstd::prelude::*;
use vstd::relations::{sorted_by, total_ordering};

verus! {

/// Number of hours in a day, the length of every hourly vector.
pub const HOURS_PER_DAY: usize = 24;

/// How many times hour `h` occurs in `hours`.
pub open spec fn hour_count(hours: Seq<u32>, h: int) -> nat
    decreases hours.len(),
{
    if hours.len() == 0 {
        0
    } else {
        hour_count(hours.drop_last(), h) + if hours.last() == h {
            1nat
        } else {
            0nat
        }
    }
}

/// Sum of a sequence of counts.
pub open spec fn seq_sum(s: Seq<u32>) -> int
    decreases s.len(),
{
    if s.len() == 0 {
        0
    } else {
        seq_sum(s.drop_last()) + s.last()
    }
}

/// Every element is a valid hour of the day.
pub open spec fn all_hours_valid(hours: Seq<u32>) -> bool {
    forall|i: int| 0 <= i < hours.len() ==> hours[i] < 24
}

/// The 24 buckets of `hours`: entry `h` counts the occurrences of `h`.
pub open spec fn hourly_counts(hours: Seq<u32>) -> Seq<u32> {
    Seq::new(24, |h: int| hour_count(hours, h) as u32)
}

pub proof fn lemma_hour_count_le_len(hours: Seq<u32>, h: int)
    ensures
        hour_count(hours, h) <= hours.len(),
    decreases hours.len(),
{
    if hours.len() > 0 {
        lemma_hour_count_le_len(hours.drop_last(), h);
    }
}

pub proof fn lemma_sum_update(s: Seq<u32>, i: int, v: u32)
    requires
        0 <= i < s.len(),
    ensures
        seq_sum(s.update(i, v)) == seq_sum(s) - s[i] + v,
    decreases s.len(),
{
    let t = s.update(i, v);
    if i == s.len() - 1 {
        assert(t.drop_last() =~= s.drop_last());
    } else {
        assert(t.drop_last() =~= s.drop_last().update(i, v));
        lemma_sum_update(s.drop_last(), i, v);
    }
}

pub proof fn lemma_sum_zeros(s: Seq<u32>)
    requires
        forall|i: int| 0 <= i < s.len() ==> s[i] == 0,
    ensures
        seq_sum(s) == 0,
    decreases s.len(),
{
    if s.len() > 0 {
        lemma_sum_zeros(s.drop_last());
    }
}

/// Counts how many entries of `hours` fall in each hour of the day.
/// The result always has 24 buckets, bucket `h` holds the number of
/// occurrences of `h`, and the buckets add up to the number of entries.
pub fn count_hourly_activity(hours: &[u32]) -> (r: Vec<u32>)
    requires
        hours@.len() <= u32::MAX,
        all_hours_valid(hours@),
    ensures
        r@.len() == 24,
        forall|h: int| 0 <= h < 24 ==> r@[h] == hour_count(hours@, h),
        r@ == hourly_counts(hours@),
        seq_sum(r@) == hours@.len(),
{
    let mut counts: Vec<u32> = vec![0u32; HOURS_PER_DAY];
    proof {
        lemma_sum_zeros(counts@);
    }
    let mut i: usize = 0;
    while i < hours.len()
        invariant
            i <= hours@.len(),
            hours@.len() <= u32::MAX,
            all_hours_valid(hours@),
            counts@.len() == 24,
            forall|h: int| 0 <= h < 24 ==> counts@[h] == hour_count(hours@.subrange(0, i as int), h),
            seq_sum(counts@) == i,
        decreases hours.len() - i,
    {
        let h = hours[i] as usize;
        proof {
            lemma_hour_count_le_len(hours@.subrange(0, i as int), h as int);
            lemma_sum_update(counts@, h as int, (counts@[h as int] + 1) as u32);
            assert(hours@.subrange(0, i + 1).drop_last() =~= hours@.subrange(0, i as int));
        }
        let c = counts[h] + 1;
        counts.set(h, c);
        i += 1;
    }
    assert(hours@.subrange(0, i as int) =~= hours@);
    assert(counts@ =~= hourly_counts(hours@));
    counts
}

/// The ascending order on samples.
pub open spec fn sample_leq() -> spec_fn(u32, u32) -> bool {
    |a: u32, b: u32| a <= b
}

/// The samples in ascending order.
pub open spec fn sorted_samples(s: Seq<u32>) -> Seq<u32> {
    s.sort_by(sample_leq())
}

/// The middle of an ascending sequence: the middle element for an odd
/// length, the truncated mean of the two middle elements for an even
/// length, and 0 for no samples.
pub open spec fn middle_value(t: Seq<u32>) -> int {
    let mid = t.len() as int / 2;
    if t.len() == 0 {
        0
    } else if t.len() % 2 == 1 {
        t[mid] as int
    } else {
        (t[mid - 1] + t[mid]) / 2
    }
}

/// The median of a sample collection.
pub open spec fn median_of(s: Seq<u32>) -> int {
    middle_value(sorted_samples(s))
}

pub proof fn lemma_sample_leq_total()
    ensures
        total_ordering(sample_leq()),
{
}

/// Any ascending arrangement of the samples is the sorted sequence.
pub proof fn lemma_sorted_is_sorted_samples(s: Seq<u32>, t: Seq<u32>)
    requires
        sorted_by(t, sample_leq()),
        t.to_multiset() == s.to_multiset(),
    ensures
        t == sorted_samples(s),
{
    lemma_sample_leq_total();
    s.lemma_sort_by_ensures(sample_leq());
    vstd::seq_lib::lemma_sorted_unique(t, sorted_samples(s), sample_leq());
}

/// Reordering the samples of an hour does not change its median.
pub proof fn lemma_median_ignores_order(s1: Seq<u32>, s2: Seq<u32>)
    requires
        s1.to_multiset() == s2.to_multiset(),
    ensures
        median_of(s1) == median_of(s2),
{
    lemma_sample_leq_total();
    s1.lemma_sort_by_ensures(sample_leq());
    lemma_sorted_is_sorted_samples(s2, sorted_samples(s1));
}

/// Relies on slice::sort_unstable: afterwards the vector holds the same
/// elements in ascending order.
#[verifier::external_body]
fn sort_ascending(v: &mut Vec<u32>)
    ensures
        final(v)@.to_multiset() == old(v)@.to_multiset(),
        sorted_by(final(v)@, sample_leq()),
{
    v.sort_unstable();
}

/// The median of `samples`: the middle element once sorted for an odd
/// count, the truncated mean of the two middle elements for an even count,
/// and 0 when there are no samples.
pub fn median(samples: &Vec<u32>) -> (r: u32)
    ensures
        r == median_of(samples@),
{
    let mut sorted = samples.clone();
    sort_ascending(&mut sorted);
    proof {
        lemma_sorted_is_sorted_samples(samples@, sorted@);
    }
    let n = sorted.len();
    if n == 0 {
        0
    } else if n % 2 == 1 {
        sorted[n / 2]
    } else {
        let a = sorted[n / 2 - 1] as u64;
        let b = sorted[n / 2] as u64;
        ((a + b) / 2) as u32
    }
}

/// The per-hour median profile: entry `h` is the median of the samples
/// collected for hour `h`, and 0 for an hour without samples.
pub fn calculate_hourly_medians(hourly_data: &Vec<Vec<u32>>) -> (r: Vec<u32>)
    requires
        hourly_data@.len() <= 24,
    ensures
        r@.len() == 24,
        forall|h: int| 0 <= h < hourly_data@.len() ==> r@[h] == median_of(#[trigger] hourly_data@[h]@),
        forall|h: int| hourly_data@.len() <= h < 24 ==> r@[h] == 0,
{
    let mut medians: Vec<u32> = vec![0u32; HOURS_PER_DAY];
    let mut h: usize = 0;
    while h < hourly_data.len()
        invariant
            h <= hourly_data@.len() <= 24,
            medians@.len() == 24,
            forall|k: int| 0 <= k < h ==> medians@[k] == median_of(#[trigger] hourly_data@[k]@),
            forall|k: int| h <= k < 24 ==> medians@[k] == 0,
        decreases hourly_data.len() - h,
    {
        let m = median(&hourly_data[h]);
        medians.set(h, m);
        h += 1;
    }
    medians
}

} // verus!
