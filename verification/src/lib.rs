//! A fixed-width histogram binning engine.
//!
//! The engine divides a bounded half-open interval `[left, right)` into
//! `bucket_count` buckets of equal width and counts samples into them,
//! tracking samples below `left` (underflow) and at or above `right`
//! (overflow) separately.
//!
//! The interval endpoints and the samples themselves are floating-point
//! values, which the verifier does not reason about. The engine therefore
//! works on the three facts the boundary adapter extracts from each sample:
//! whether it lies below `left`, whether it lies at or above `right`, and
//! the truncated bucket offset computed from the sample's distance to
//! `left`. Everything downstream of those observations — classification
//! with its clamping of rounding artifacts, the counters, the conservation
//! of counts — is verified here.

pub mod bins;
pub mod histogram;
