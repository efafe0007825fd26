use binning::bins::Bin;
use binning::bins::increment;
use binning::bins::increment_all;
use binning::histogram::BucketIndex;
use binning::histogram::Histogram;
use binning::histogram::HistogramError;
use binning::histogram::SampleReading;

/// What the boundary adapter computes for one sample of a histogram over
/// `[left, right)` with `bucket_count` buckets.
fn reading(left: f64, right: f64, bucket_count: usize, datum: f64) -> SampleReading {
    let below_left = datum < left;
    let at_or_above_right = datum >= right;
    let offset = if !below_left && !at_or_above_right {
        let bucket_width = (right - left) / (bucket_count as f64);
        ((datum - left) / bucket_width) as usize
    } else {
        0
    };
    SampleReading { below_left, at_or_above_right, offset }
}

fn readings(left: f64, right: f64, bucket_count: usize, data: &[f64]) -> Vec<SampleReading> {
    data.iter().map(|d| reading(left, right, bucket_count, *d)).collect()
}

#[test]
fn test_increment_all() {
    let mut bins = vec![Bin::empty(), Bin::empty(), Bin::empty(), Bin::empty()];
    increment_all(&mut bins);
    for bin in bins {
        assert_eq!(1, bin.count);
    }
}

#[test]
fn test_count_underflow() {
    let mut hist = Histogram::new(0.0 < 5.0, 5).unwrap();
    hist.count(reading(0.0, 5.0, 5, -1.0));
    assert_eq!(1, hist.underflow.count);
}

#[test]
fn test_count_overflow() {
    let mut hist = Histogram::new(0.0 < 5.0, 5).unwrap();
    hist.count(reading(0.0, 5.0, 5, 6.0));
    assert_eq!(1, hist.overflow.count);
}

#[test]
fn test_bin_linear_dataset() {
    let data = vec![-0.5, 0.5, 1.5, 1.7, 3.1, 3.5, 3.6, 4.5, 5.5];
    let mut hist = Histogram::new(0.0 < 5.0, 5).unwrap();
    hist.count_all(&readings(0.0, 5.0, 5, &data));

    assert_eq!(1, hist.underflow.count);
    assert_eq!(1, hist.get_bins()[0].count);
    assert_eq!(2, hist.get_bins()[1].count);
    assert_eq!(0, hist.get_bins()[2].count);
    assert_eq!(3, hist.get_bins()[3].count);
    assert_eq!(1, hist.get_bins()[4].count);
    assert_eq!(1, hist.overflow.count);
}

#[test]
fn test_conservation() {
    let data = vec![-0.5, 0.5, 1.5, 1.7, 3.1, 3.5, 3.6, 4.5, 5.5];
    let mut hist = Histogram::new(0.0 < 5.0, 5).unwrap();
    hist.count_all(&readings(0.0, 5.0, 5, &data));

    let mut total: u64 = hist.underflow.count as u64 + hist.overflow.count as u64;
    for bin in hist.get_bins() {
        total += bin.count as u64;
    }
    assert_eq!(data.len() as u64, total);
}

#[test]
fn test_count_all_is_iterated_count() {
    let data = vec![-0.5, 0.5, 1.5, 1.7, 3.1, 3.5, 3.6, 4.5, 5.5];
    let rs = readings(0.0, 5.0, 5, &data);

    let mut batch = Histogram::new(0.0 < 5.0, 5).unwrap();
    batch.count_all(&rs);

    let mut one_by_one = Histogram::new(0.0 < 5.0, 5).unwrap();
    for r in &rs {
        one_by_one.count(*r);
    }

    assert_eq!(batch.underflow.count, one_by_one.underflow.count);
    assert_eq!(batch.overflow.count, one_by_one.overflow.count);
    for i in 0..5 {
        assert_eq!(batch.get_bins()[i].count, one_by_one.get_bins()[i].count);
    }
}

#[test]
fn test_half_open_boundary() {
    let hist = Histogram::new(0.0 < 5.0, 5).unwrap();
    assert_eq!(
        BucketIndex::Bucket(0),
        hist.classify(reading(0.0, 5.0, 5, 0.0))
    );
    assert_eq!(
        BucketIndex::Overflow,
        hist.classify(reading(0.0, 5.0, 5, 5.0))
    );
}

#[test]
fn test_uniform_coverage() {
    let mut hist = Histogram::new(0.0 < 1.0, 1000).unwrap();
    let data: Vec<f64> = (0..1000).map(|i| (i as f64) / 1000.0).collect();
    hist.count_all(&readings(0.0, 1.0, 1000, &data));

    assert_eq!(0, hist.underflow.count);
    assert_eq!(0, hist.overflow.count);
    let total: u64 = hist.get_bins().iter().map(|b| b.count as u64).sum();
    assert_eq!(1000, total);
}

#[test]
fn test_rounding_edge() {
    // The largest double below 5.0 must land in the last bucket.
    let hist = Histogram::new(0.0 < 5.0, 5).unwrap();
    let just_below = f64::from_bits(5.0f64.to_bits() - 1);
    assert_eq!(
        BucketIndex::Bucket(4),
        hist.classify(reading(0.0, 5.0, 5, just_below))
    );

    // A width of 0.3 / 3 is not exact, so the offset of a sample just below
    // the right edge may round to the bucket count itself; the result must
    // still be the last bucket.
    let hist = Histogram::new(0.0 < 0.3, 3).unwrap();
    let just_below = f64::from_bits(0.3f64.to_bits() - 1);
    assert_eq!(
        BucketIndex::Bucket(2),
        hist.classify(reading(0.0, 0.3, 3, just_below))
    );

    // An offset that reaches the bucket count exactly is clamped.
    let hist = Histogram::new(0.0 < 5.0, 5).unwrap();
    let rounded_up = SampleReading { below_left: false, at_or_above_right: false, offset: 5 };
    assert_eq!(BucketIndex::Bucket(4), hist.classify(rounded_up));
}

#[test]
fn test_construction_guards() {
    assert_eq!(
        Err(HistogramError::InvalidBucketCount),
        Histogram::new(0.0 < 5.0, 0).map(|_| ())
    );
    assert_eq!(
        Err(HistogramError::InvalidRange),
        Histogram::new(5.0 < 5.0, 3).map(|_| ())
    );
    assert_eq!(
        Err(HistogramError::InvalidRange),
        Histogram::new(6.0 < 5.0, 3).map(|_| ())
    );
    // The empty interval is reported before the empty bucket array.
    assert_eq!(
        Err(HistogramError::InvalidRange),
        Histogram::new(5.0 < 5.0, 0).map(|_| ())
    );
    assert!(Histogram::new(0.0 < 5.0, 1).is_ok());
}

#[test]
fn test_increment_saturates() {
    let mut bin = Bin::new(u32::MAX);
    bin.increment();
    assert_eq!(u32::MAX, bin.count);

    let mut bin = Bin::new(u32::MAX - 1);
    increment(&mut bin);
    increment(&mut bin);
    assert_eq!(u32::MAX, bin.count);
}

#[test]
fn test_bin_empty_and_new() {
    assert_eq!(0, Bin::empty().count);
    assert_eq!(7, Bin::new(7).count);
}

#[test]
fn test_get_bin_bounds_checked() {
    let mut hist = Histogram::new(0.0 < 5.0, 5).unwrap();
    hist.count(reading(0.0, 5.0, 5, 2.5));
    assert_eq!(5, hist.bucket_count());
    assert_eq!(1, hist.get_bin(2).unwrap().count);
    assert_eq!(0, hist.get_bin(4).unwrap().count);
    assert!(hist.get_bin(5).is_none());
    assert!(hist.get_bin(usize::MAX).is_none());
}
