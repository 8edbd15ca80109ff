//! Bookkeeping types of the vector store.
//!
//! The store's similarity arithmetic is floating point and lives with
//! the embedder around this crate; what stands here is the exact part:
//! configuration, operation statistics, dimension checking and the
//! error taxonomy.

use vstd::prelude::*;

verus! {

/// Configuration of the vector store.
#[derive(Clone, Copy, Debug, PartialEq, Eq, Structural)]
pub struct EngineConfig {
    /// Dimension expected of stored vectors.
    pub default_dimension: usize,
    /// Ceiling on the number of cached vectors.
    pub max_cache_size: usize,
    /// Whether SIMD kernels may be used.
    pub use_simd: bool,
}

impl Default for EngineConfig {
    /// The stock configuration: a common embedding width, a hundred
    /// thousand cached vectors, SIMD on.
    fn default() -> (r: EngineConfig)
        ensures
            r == (EngineConfig { default_dimension: 768, max_cache_size: 100000, use_simd: true }),
    {
        EngineConfig { default_dimension: 768, max_cache_size: 100000, use_simd: true }
    }
}

/// Operation statistics of the store.
#[derive(Clone, Copy, Debug, PartialEq, Eq, Structural)]
pub struct VectorStats {
    /// Operations performed in total.
    pub total_ops: u64,
    /// Lookups that found a vector.
    pub cache_hits: u64,
    /// Lookups that found none.
    pub cache_misses: u64,
    /// Smoothed latency of the last operations, in nanoseconds.
    pub avg_latency_ns: u64,
    /// Throughput implied by the last latency sample.
    pub ops_per_sec: u64,
}

impl Default for VectorStats {
    /// All counters at zero.
    fn default() -> (r: VectorStats)
        ensures
            r == (VectorStats {
                total_ops: 0,
                cache_hits: 0,
                cache_misses: 0,
                avg_latency_ns: 0,
                ops_per_sec: 0,
            }),
    {
        VectorStats {
            total_ops: 0,
            cache_hits: 0,
            cache_misses: 0,
            avg_latency_ns: 0,
            ops_per_sec: 0,
        }
    }
}

impl VectorStats {
    /// Folds one latency sample in: the smoothed latency is the mean
    /// of the old value and the sample, and while operations have been
    /// counted, the throughput is the sample's inverse in seconds.
    pub fn update_latency(&mut self, latency_ns: u64)
        requires
            old(self).avg_latency_ns + latency_ns <= u64::MAX,
            old(self).total_ops > 0 ==> latency_ns > 0,
        ensures
            final(self).avg_latency_ns == (old(self).avg_latency_ns + latency_ns) / 2,
            old(self).total_ops > 0 ==> final(self).ops_per_sec == 1000000000u64 as int
                / latency_ns as int,
            old(self).total_ops == 0 ==> final(self).ops_per_sec == old(self).ops_per_sec,
            final(self).total_ops == old(self).total_ops,
            final(self).cache_hits == old(self).cache_hits,
            final(self).cache_misses == old(self).cache_misses,
    {
        self.avg_latency_ns = (self.avg_latency_ns + latency_ns) / 2;
        if self.total_ops > 0 {
            self.ops_per_sec = 1000000000 / latency_ns;
        }
    }
}

/// Errors of the vector store.
#[derive(Debug)]
pub enum VectorError {
    /// Two vectors of different widths met in one operation.
    DimensionMismatch { expected: usize, actual: usize },
    /// No vector is stored under the identifier.
    VectorNotFound { id: String },
    /// A vector of this size cannot be stored.
    InvalidVectorSize { size: usize },
    /// An arithmetic kernel could not produce a value.
    ComputationError { message: String },
}

/// Checks that two vector widths agree, as every pairwise operation of
/// the store must: the first width is the expected one.
pub fn check_dimensions(expected: usize, actual: usize) -> (r: Result<(), VectorError>)
    ensures
        expected == actual ==> r is Ok,
        expected != actual ==> (r matches Err(VectorError::DimensionMismatch {
            expected: e2,
            actual: a2,
        }) && e2 == expected && a2 == actual),
{
    if expected == actual {
        Ok(())
    } else {
        Err(VectorError::DimensionMismatch { expected, actual })
    }
}

} // verus!
