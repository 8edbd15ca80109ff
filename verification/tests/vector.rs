use agenticgen::vector::check_dimensions;
use agenticgen::vector::EngineConfig;
use agenticgen::vector::VectorError;
use agenticgen::vector::VectorStats;

#[test]
fn latency_updates_smooth_and_invert() {
    let mut stats = VectorStats::default();
    // With no operations counted, only the smoothed latency moves.
    stats.update_latency(100);
    assert_eq!(stats.avg_latency_ns, 50);
    assert_eq!(stats.ops_per_sec, 0);

    stats.total_ops = 5;
    stats.update_latency(1000);
    assert_eq!(stats.avg_latency_ns, (50 + 1000) / 2);
    assert_eq!(stats.ops_per_sec, 1_000_000);

    stats.update_latency(1);
    assert_eq!(stats.ops_per_sec, 1_000_000_000);
}

#[test]
fn stock_engine_configuration() {
    let config = EngineConfig::default();
    assert_eq!(config.default_dimension, 768);
    assert_eq!(config.max_cache_size, 100_000);
    assert!(config.use_simd);
}

#[test]
fn dimension_checks_name_both_widths() {
    assert!(check_dimensions(3, 3).is_ok());
    match check_dimensions(3, 4) {
        Err(VectorError::DimensionMismatch { expected, actual }) => {
            assert_eq!(expected, 3);
            assert_eq!(actual, 4);
        }
        _ => panic!("a mismatch must be reported"),
    }
}

#[test]
fn error_variants_carry_their_context() {
    let not_found = VectorError::VectorNotFound {
        id: "v1".to_string(),
    };
    assert!(matches!(
        not_found,
        VectorError::VectorNotFound { ref id } if id == "v1"
    ));
    let empty = VectorError::InvalidVectorSize { size: 0 };
    assert!(matches!(empty, VectorError::InvalidVectorSize { size: 0 }));
    let failed = VectorError::ComputationError {
        message: "zero norm".to_string(),
    };
    assert!(matches!(
        failed,
        VectorError::ComputationError { ref message } if message == "zero norm"
    ));
}

#[test]
fn fresh_stats_are_all_zero() {
    let stats = VectorStats::default();
    assert_eq!(stats.total_ops, 0);
    assert_eq!(stats.cache_hits, 0);
    assert_eq!(stats.cache_misses, 0);
    assert_eq!(stats.avg_latency_ns, 0);
    assert_eq!(stats.ops_per_sec, 0);
}
