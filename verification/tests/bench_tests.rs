//! Tests of the diagnostics and micro-benchmark helpers.

use graph_wasm::bench::{benchmark_batch_normalize, benchmark_normalize, benchmark_sum, health_check};

#[test]
fn test_health_check() {
    assert!(health_check());
}

#[test]
fn test_benchmark_sum() {
    assert_eq!(benchmark_sum(0), 0);
    assert_eq!(benchmark_sum(1), 1);
    assert_eq!(benchmark_sum(10), 55);
    assert_eq!(benchmark_sum(100), 5050);
}

#[test]
fn test_benchmark_normalize() {
    assert_eq!(benchmark_normalize("The BEATLES"), "the beatles");
    assert_eq!(benchmark_normalize(""), "");
}

#[test]
fn test_benchmark_batch_normalize() {
    let lowered = benchmark_batch_normalize(vec![
        "The Beatles".to_string(),
        "RADIOHEAD".to_string(),
        "pink floyd".to_string(),
    ]);
    assert_eq!(
        lowered,
        vec!["the beatles".to_string(), "radiohead".to_string(), "pink floyd".to_string()]
    );
    assert_eq!(benchmark_batch_normalize(Vec::new()), Vec::<String>::new());
}
