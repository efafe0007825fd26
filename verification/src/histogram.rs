//! The histogram and its classification algorithm.

use vstd::prelude::*;

use crate::bins::Bin;
use crate::bins::capped;

verus! {

/// What the boundary adapter observes of one floating-point sample, relative
/// to a histogram over `[left, right)` with buckets of equal width.
///
/// The adapter computes, in floating point: `below_left` as `datum < left`,
/// `at_or_above_right` as `datum >= right`, and `offset` as
/// `(datum - left) / bucket_width` truncated towards zero. `offset` carries
/// meaning only when both flags are false; rounding may then still push it
/// one past the last bucket, which classification clamps.
#[derive(Clone, Copy)]
pub struct SampleReading {
    pub below_left: bool,
    pub at_or_above_right: bool,
    pub offset: usize,
}

/// Where one sample lands: below the interval, at or above it, or in one of
/// the buckets.
#[derive(Clone, Copy, Debug, PartialEq, Eq, Structural)]
pub enum BucketIndex {
    Underflow,
    Overflow,
    Bucket(usize),
}

/// Why constructing a histogram failed.
#[derive(Clone, Copy, Debug, PartialEq, Eq, Structural)]
pub enum HistogramError {
    /// The interval endpoints do not satisfy `left < right`.
    InvalidRange,
    /// The requested bucket count is zero.
    InvalidBucketCount,
}

/// A fixed-width histogram: one bin per bucket, plus an underflow bin and an
/// overflow bin. The bucket sequence is fixed at construction and never
/// resizes; only the counts change.
pub struct Histogram {
    pub underflow: Bin,
    pub overflow: Bin,
    pub bins: Vec<Bin>,
}

/// The classification rule: a sample below `left` underflows, a sample at or
/// above `right` overflows, and an in-range sample lands in the bucket named
/// by its offset, clamped into range in case floating-point rounding
/// computed an offset of exactly `bucket_count`.
pub open spec fn classify_spec(bucket_count: int, r: SampleReading) -> BucketIndex {
    if r.below_left {
        BucketIndex::Underflow
    } else if r.at_or_above_right {
        BucketIndex::Overflow
    } else if r.offset < bucket_count {
        BucketIndex::Bucket(r.offset)
    } else {
        BucketIndex::Bucket((bucket_count - 1) as usize)
    }
}

/// How many of the readings classify to `target`.
pub open spec fn hits(readings: Seq<SampleReading>, bucket_count: int, target: BucketIndex) -> nat
    decreases readings.len(),
{
    if readings.len() == 0 {
        0
    } else {
        hits(readings.drop_last(), bucket_count, target) + (if classify_spec(
            bucket_count,
            readings.last(),
        ) == target {
            1nat
        } else {
            0nat
        })
    }
}

/// Whether a classification lands in one of the first `k` buckets.
spec fn in_first_buckets(c: BucketIndex, k: int) -> bool {
    c matches BucketIndex::Bucket(i) && i < k
}

/// How many of the readings classify into one of the first `k` buckets.
spec fn bucket_hits_total(
    readings: Seq<SampleReading>,
    bucket_count: int,
    k: int,
) -> nat
    decreases readings.len(),
{
    if readings.len() == 0 {
        0
    } else {
        bucket_hits_total(readings.drop_last(), bucket_count, k) + (if in_first_buckets(
            classify_spec(bucket_count, readings.last()),
            k,
        ) {
            1nat
        } else {
            0nat
        })
    }
}

/// The sum of the counts of a sequence of bins.
pub open spec fn bins_total(bins: Seq<Bin>) -> nat
    decreases bins.len(),
{
    if bins.len() == 0 {
        0
    } else {
        bins_total(bins.drop_last()) + bins.last().count as nat
    }
}

/// Everything a histogram has counted: underflow, overflow, and all buckets.
pub open spec fn total_count(h: Histogram) -> nat {
    h.underflow.count as nat + h.overflow.count as nat + bins_total(h.bins@)
}

/// The effect of counting one reading: the bin the reading classifies to
/// gains one (saturating), everything else is unchanged.
pub open spec fn counted_one(pre: Histogram, r: SampleReading, post: Histogram) -> bool {
    match classify_spec(pre.bins@.len() as int, r) {
        BucketIndex::Underflow => {
            &&& post.underflow.count == capped(pre.underflow.count + 1)
            &&& post.overflow == pre.overflow
            &&& post.bins@ == pre.bins@
        },
        BucketIndex::Overflow => {
            &&& post.underflow == pre.underflow
            &&& post.overflow.count == capped(pre.overflow.count + 1)
            &&& post.bins@ == pre.bins@
        },
        BucketIndex::Bucket(i) => {
            &&& post.underflow == pre.underflow
            &&& post.overflow == pre.overflow
            &&& post.bins@ == pre.bins@.update(
                i as int,
                Bin { count: capped(pre.bins@[i as int].count + 1) as u32 },
            )
        },
    }
}

/// The effect of counting a batch of readings: every counter ends at its old
/// value plus the number of readings that classify to it, saturating.
pub open spec fn counted_all(
    pre: Histogram,
    readings: Seq<SampleReading>,
    post: Histogram,
) -> bool {
    let bc = pre.bins@.len() as int;
    &&& post.bins@.len() == pre.bins@.len()
    &&& post.underflow.count == capped(
        pre.underflow.count + hits(readings, bc, BucketIndex::Underflow),
    )
    &&& post.overflow.count == capped(
        pre.overflow.count + hits(readings, bc, BucketIndex::Overflow),
    )
    &&& forall|i: int|
        0 <= i < bc ==> post.bins@[i].count == capped(
            pre.bins@[i].count + hits(readings, bc, BucketIndex::Bucket(i as usize)),
        )
}

/// Classifies one reading against `bucket_count` buckets.
pub fn classify_reading(bucket_count: usize, r: SampleReading) -> (idx: BucketIndex)
    requires
        bucket_count >= 1,
    ensures
        idx == classify_spec(bucket_count as int, r),
{
    if r.below_left {
        BucketIndex::Underflow
    } else if r.at_or_above_right {
        BucketIndex::Overflow
    } else if r.offset < bucket_count {
        BucketIndex::Bucket(r.offset)
    } else {
        BucketIndex::Bucket(bucket_count - 1)
    }
}

impl Histogram {
    /// A histogram is well-formed when it has at least one bucket.
    pub open spec fn wf(&self) -> bool {
        self.bins@.len() >= 1
    }

    /// A fresh histogram has counted nothing.
    pub open spec fn is_fresh(&self) -> bool {
        &&& self.underflow.count == 0
        &&& self.overflow.count == 0
        &&& forall|i: int| 0 <= i < self.bins@.len() ==> self.bins@[i].count == 0
    }

    /// A fresh histogram with `bucket_count` empty buckets.
    ///
    /// `left_below_right` is the boundary adapter's comparison `left < right`
    /// of the floating-point endpoints. Construction is refused when the
    /// interval is empty or reversed, and when the bucket count is zero;
    /// either would make the bucket width degenerate.
    pub fn new(left_below_right: bool, bucket_count: usize) -> (r: Result<Histogram, HistogramError>)
        ensures
            !left_below_right ==> r == Err::<Histogram, HistogramError>(
                HistogramError::InvalidRange,
            ),
            left_below_right && bucket_count == 0 ==> r == Err::<Histogram, HistogramError>(
                HistogramError::InvalidBucketCount,
            ),
            r matches Ok(h) ==> h.wf() && h.is_fresh() && h.bins@.len() == bucket_count,
            r is Ok <==> left_below_right && bucket_count >= 1,
    {
        if !left_below_right {
            return Err(HistogramError::InvalidRange);
        }
        if bucket_count == 0 {
            return Err(HistogramError::InvalidBucketCount);
        }
        let mut bins: Vec<Bin> = Vec::new();
        let mut j: usize = 0;
        while j < bucket_count
            invariant
                j <= bucket_count,
                bins@.len() == j,
                forall|i: int| 0 <= i < j ==> bins@[i].count == 0,
            decreases bucket_count - j,
        {
            bins.push(Bin::empty());
            j = j + 1;
        }
        Ok(Histogram { underflow: Bin::empty(), overflow: Bin::empty(), bins })
    }

    /// The number of buckets.
    pub fn bucket_count(&self) -> (n: usize)
        ensures
            n == self.bins@.len(),
    {
        self.bins.len()
    }

    /// Classifies one reading against this histogram's buckets.
    pub fn classify(&self, r: SampleReading) -> (idx: BucketIndex)
        requires
            self.wf(),
        ensures
            idx == classify_spec(self.bins@.len() as int, r),
    {
        classify_reading(self.bins.len(), r)
    }

    /// Counts one sample: classifies its reading and increments the selected
    /// bin in place.
    pub fn count(&mut self, r: SampleReading)
        requires
            old(self).wf(),
        ensures
            final(self).wf(),
            counted_one(*old(self), r, *final(self)),
    {
        let idx = self.classify(r);
        match idx {
            BucketIndex::Underflow => self.underflow.increment(),
            BucketIndex::Overflow => self.overflow.increment(),
            BucketIndex::Bucket(i) => {
                let mut b = self.bins[i];
                b.increment();
                self.bins.set(i, b);
            },
        }
    }

    /// Counts every sample in the batch, one after the other, in sequence
    /// order.
    pub fn count_all(&mut self, readings: &Vec<SampleReading>)
        requires
            old(self).wf(),
        ensures
            final(self).wf(),
            counted_all(*old(self), readings@, *final(self)),
    {
        let ghost pre = *self;
        let ghost s = readings@;
        proof {
            lemma_count_all_empty(pre);
            assert(s.take(0) =~= Seq::<SampleReading>::empty());
        }
        let n = readings.len();
        let mut j: usize = 0;
        while j < n
            invariant
                j <= n,
                n == s.len(),
                s == readings@,
                pre.wf(),
                counted_all(pre, s.take(j as int), *self),
            decreases n - j,
        {
            let ghost mid = *self;
            let r = readings[j];
            self.count(r);
            proof {
                lemma_count_all_extends(pre, s.take(j as int), r, mid, *self);
                assert(s.take(j as int + 1) =~= s.take(j as int).push(s[j as int]));
            }
            j = j + 1;
        }
        proof {
            assert(s.take(n as int) =~= s);
        }
    }

    /// Bounds-checked access to one bucket: absent when the index is out of
    /// range.
    pub fn get_bin(&self, index: usize) -> (r: Option<&Bin>)
        ensures
            index < self.bins@.len() ==> (r matches Some(b) && *b == self.bins@[index as int]),
            index >= self.bins@.len() ==> r is None,
    {
        if index < self.bins.len() {
            Some(&self.bins[index])
        } else {
            None
        }
    }

    /// The full bucket sequence, read-only.
    pub fn get_bins(&self) -> (r: &Vec<Bin>)
        ensures
            r@ == self.bins@,
    {
        &self.bins
    }
}

/// Saturating one more increment onto an already saturated sum caps the same
/// way as summing first and capping once.
proof fn lemma_capped_step(a: int)
    ensures
        capped(capped(a) + 1) == capped(a + 1),
{
}

/// No target is hit more often than there are readings.
proof fn lemma_hits_le_len(s: Seq<SampleReading>, bucket_count: int, t: BucketIndex)
    ensures
        hits(s, bucket_count, t) <= s.len(),
    decreases s.len(),
{
    if s.len() > 0 {
        lemma_hits_le_len(s.drop_last(), bucket_count, t);
    }
}

/// Every reading classifies to exactly one of: underflow, overflow, or one
/// of the `bucket_count` buckets.
proof fn lemma_hits_partition(s: Seq<SampleReading>, bucket_count: int)
    requires
        bucket_count >= 1,
    ensures
        hits(s, bucket_count, BucketIndex::Underflow) + hits(
            s,
            bucket_count,
            BucketIndex::Overflow,
        ) + bucket_hits_total(s, bucket_count, bucket_count) == s.len(),
    decreases s.len(),
{
    if s.len() > 0 {
        lemma_hits_partition(s.drop_last(), bucket_count);
    }
}

/// With no buckets admitted, the bucket hit total is zero.
proof fn lemma_bucket_hits_none(s: Seq<SampleReading>, bucket_count: int, k: int)
    requires
        k <= 0,
    ensures
        bucket_hits_total(s, bucket_count, k) == 0,
    decreases s.len(),
{
    if s.len() > 0 {
        lemma_bucket_hits_none(s.drop_last(), bucket_count, k);
    }
}

/// Splitting off the last of the first `k` buckets from the bucket hit
/// total.
proof fn lemma_bucket_hits_peel(s: Seq<SampleReading>, bucket_count: int, k: int)
    requires
        1 <= k <= usize::MAX as int + 1,
    ensures
        bucket_hits_total(s, bucket_count, k) == bucket_hits_total(s, bucket_count, k - 1) + hits(
            s,
            bucket_count,
            BucketIndex::Bucket((k - 1) as usize),
        ),
    decreases s.len(),
{
    if s.len() > 0 {
        lemma_bucket_hits_peel(s.drop_last(), bucket_count, k);
    }
}

/// When each bin holds exactly the hit count of its bucket, the bins sum to
/// the bucket hit total.
proof fn lemma_bins_total_of_hits(bins: Seq<Bin>, s: Seq<SampleReading>, bucket_count: int)
    requires
        bins.len() <= usize::MAX,
        forall|i: int|
            0 <= i < bins.len() ==> bins[i].count == hits(
                s,
                bucket_count,
                BucketIndex::Bucket(i as usize),
            ),
    ensures
        bins_total(bins) == bucket_hits_total(s, bucket_count, bins.len() as int),
    decreases bins.len(),
{
    if bins.len() == 0 {
        lemma_bucket_hits_none(s, bucket_count, 0);
    } else {
        lemma_bins_total_of_hits(bins.drop_last(), s, bucket_count);
        lemma_bucket_hits_peel(s, bucket_count, bins.len() as int);
    }
}

/// Conservation: counting a batch of samples into a fresh histogram leaves
/// the underflow count, the overflow count and the bucket counts summing to
/// exactly the number of samples counted, as long as that number fits in one
/// counter.
pub proof fn lemma_conservation(pre: Histogram, readings: Seq<SampleReading>, post: Histogram)
    requires
        pre.wf(),
        pre.is_fresh(),
        readings.len() <= u32::MAX,
        counted_all(pre, readings, post),
    ensures
        total_count(post) == readings.len(),
{
    let bc = pre.bins@.len() as int;
    // The bucket sequence is a vector's view, so its length fits in usize.
    assert(post.bins.len() == post.bins@.len());
    lemma_hits_le_len(readings, bc, BucketIndex::Underflow);
    lemma_hits_le_len(readings, bc, BucketIndex::Overflow);
    assert forall|i: int| 0 <= i < post.bins@.len() implies post.bins@[i].count == hits(
        readings,
        bc,
        BucketIndex::Bucket(i as usize),
    ) by {
        lemma_hits_le_len(readings, bc, BucketIndex::Bucket(i as usize));
    }
    lemma_bins_total_of_hits(post.bins@, readings, bc);
    lemma_hits_partition(readings, bc);
}

/// Counting an empty batch changes nothing: the batch relation degenerates
/// to equality of the counters.
pub proof fn lemma_count_all_empty(h: Histogram)
    ensures
        counted_all(h, Seq::empty(), h),
{
}

/// Counting a batch is counting one sample at a time, in sequence order:
/// extending a counted batch by one more reading is the same as counting
/// that reading into the result.
pub proof fn lemma_count_all_extends(
    pre: Histogram,
    readings: Seq<SampleReading>,
    r: SampleReading,
    mid: Histogram,
    post: Histogram,
)
    requires
        pre.wf(),
        counted_all(pre, readings, mid),
        counted_one(mid, r, post),
    ensures
        counted_all(pre, readings.push(r), post),
{
    let bc = pre.bins@.len() as int;
    // The bucket sequence is a vector's view, so its length fits in usize.
    assert(pre.bins.len() == pre.bins@.len());
    let s2 = readings.push(r);
    assert(s2.drop_last() =~= readings);
    assert(s2.last() == r);
    if let BucketIndex::Bucket(i) = classify_spec(bc, r) {
        // `r` was counted into a real bucket, so the update stayed in range
        // and the bucket sequence kept its length.
        assert((i as int) < mid.bins@.len());
    }
    lemma_capped_step(pre.underflow.count + hits(readings, bc, BucketIndex::Underflow));
    lemma_capped_step(pre.overflow.count + hits(readings, bc, BucketIndex::Overflow));
    assert forall|i: int| 0 <= i < bc implies post.bins@[i].count == capped(
        pre.bins@[i].count + hits(s2, bc, BucketIndex::Bucket(i as usize)),
    ) by {
        lemma_capped_step(pre.bins@[i].count + hits(readings, bc, BucketIndex::Bucket(i as usize)));
    }
}

/// An in-range reading never classifies to underflow or overflow.
proof fn lemma_hits_zero_when_in_range(s: Seq<SampleReading>, bucket_count: int, t: BucketIndex)
    requires
        forall|i: int| 0 <= i < s.len() ==> !s[i].below_left && !s[i].at_or_above_right,
        t is Underflow || t is Overflow,
    ensures
        hits(s, bucket_count, t) == 0,
    decreases s.len(),
{
    if s.len() > 0 {
        lemma_hits_zero_when_in_range(s.drop_last(), bucket_count, t);
    }
}

/// Full coverage: a batch of in-range samples counted into a fresh histogram
/// leaves underflow and overflow at zero and the buckets holding the whole
/// batch, as long as the batch fits in one counter.
pub proof fn lemma_in_range_coverage(pre: Histogram, readings: Seq<SampleReading>, post: Histogram)
    requires
        pre.wf(),
        pre.is_fresh(),
        readings.len() <= u32::MAX,
        counted_all(pre, readings, post),
        forall|i: int|
            0 <= i < readings.len() ==> !readings[i].below_left && !readings[i].at_or_above_right,
    ensures
        post.underflow.count == 0,
        post.overflow.count == 0,
        bins_total(post.bins@) == readings.len(),
{
    let bc = pre.bins@.len() as int;
    lemma_hits_zero_when_in_range(readings, bc, BucketIndex::Underflow);
    lemma_hits_zero_when_in_range(readings, bc, BucketIndex::Overflow);
    lemma_conservation(pre, readings, post);
}

/// Rounding-edge robustness: an in-range reading always classifies into a
/// real bucket, and a reading whose truncated offset reaches or passes the
/// last bucket — as floating-point rounding can produce for a sample just
/// below `right` — is clamped into the last bucket, never out of range.
pub proof fn lemma_classify_clamps(bucket_count: int, r: SampleReading)
    requires
        bucket_count >= 1,
        !r.below_left,
        !r.at_or_above_right,
    ensures
        classify_spec(bucket_count, r) matches BucketIndex::Bucket(i) && i < bucket_count,
        r.offset >= bucket_count - 1 ==> classify_spec(bucket_count, r) == BucketIndex::Bucket(
            (bucket_count - 1) as usize,
        ),
{
}

} // verus!
