use rustzss::asset_loader::AssetInfo;
use rustzss::benchmark::{run_benchmark, BenchmarkResult, CompressionParameters};
use rustzss::tuner::{quick_benchmark, Tuner, TunerConfig};

fn small_pattern(n: usize) -> Vec<u8> {
    let mut data = Vec::new();
    while data.len() < n {
        data.extend_from_slice(b"HelloWorld");
    }
    data.truncate(n);
    data
}

fn in_declared_space(p: &CompressionParameters) -> bool {
    let windows = [256usize, 512, 1024, 2048, 4096, 8192, 16384, 32768, 65535];
    let min_matches = [2usize, 3, 4, 5, 6, 8];
    windows.contains(&p.window_size) && min_matches.contains(&p.min_match_length)
}

#[test]
fn test_default_config() {
    let config = TunerConfig::default();
    assert_eq!(config.benchmark_runs, 3);
    assert!(config.max_tuning_time_nanos.is_none());
    assert_eq!(config.max_iterations, 30);
    assert_eq!(config.ratio_priority_milli, 500);
    assert!(config.random_seed.is_none());
    assert!(config.parallel);
}

#[test]
fn test_tuner_convergence_seeded() {
    let config = TunerConfig {
        benchmark_runs: 2,
        max_tuning_time_nanos: None,
        max_iterations: 10,
        ratio_priority_milli: 500,
        random_seed: Some(7),
        parallel: false,
    };
    let mut tuner = Tuner::new(config);
    let data = small_pattern(500);
    let result = tuner.tune_for_data(&data, None);
    assert!(result.iterations <= 10);
    assert!(result.iterations <= 54);
    assert!(in_declared_space(&result.best_parameters));
    assert!(in_declared_space(&result.best_ratio_parameters));
    assert!(in_declared_space(&result.best_speed_parameters));
    assert_eq!(result.all_results.len(), result.iterations);
}

#[test]
fn test_tuner_exhausts_space_before_budget() {
    let config = TunerConfig {
        benchmark_runs: 1,
        max_tuning_time_nanos: None,
        max_iterations: 100,
        ratio_priority_milli: 1000,
        random_seed: Some(1),
        parallel: false,
    };
    let mut tuner = Tuner::new(config);
    let data = small_pattern(200);
    let result = tuner.tune_for_data(&data, None);
    // the space has 54 distinct candidates, fewer than the budget of 100
    assert_eq!(result.iterations, 54);
}

#[test]
fn test_run_benchmark_fields() {
    let data = small_pattern(500);
    let params = CompressionParameters::new(4096, 3);
    let result = run_benchmark(&data, params, None, 3);
    assert_eq!(result.original_size, 500);
    assert_eq!(result.parameters, params);
    assert!(result.compressed_size >= 6);
    assert!(result.compressed_size < 500);
    assert!(result.asset_info.is_none());
}

#[test]
fn test_run_benchmark_labels_asset() {
    let data = small_pattern(300);
    let asset = AssetInfo::new("dir/thing.png".to_string(), 300, data.clone());
    let params = CompressionParameters::new(1024, 4);
    let result = run_benchmark(&data, params, Some(&asset), 2);
    assert_eq!(result.asset_info, Some("thing.png (Texture)".to_string()));
}

#[test]
fn test_benchmark_metrics_exact() {
    let result = BenchmarkResult {
        original_size: 1000,
        compressed_size: 500,
        compression_time_nanos: 1_000_000,
        decompression_time_nanos: 1_000_000,
        parameters: CompressionParameters::new(4096, 3),
        asset_info: None,
    };
    assert_eq!(result.compression_ratio_milli(), 500);
    assert_eq!(result.compression_ratio_score_milli(), 2000);
    assert_eq!(result.compression_throughput_milli(), 953);
    assert_eq!(result.decompression_throughput_milli(), 953);
    assert_eq!(result.speed_milli(), 953);
    assert_eq!(result.score_milli(), 805);
}

#[test]
fn test_tune_for_assets_parallel() {
    let config = TunerConfig {
        benchmark_runs: 1,
        max_tuning_time_nanos: None,
        max_iterations: 2,
        ratio_priority_milli: 500,
        random_seed: Some(3),
        parallel: true,
    };
    let mut tuner = Tuner::new(config);
    let assets = vec![
        AssetInfo::new("a.png".to_string(), 600, small_pattern(600)),
        AssetInfo::new("b.wav".to_string(), 400, small_pattern(400)),
    ];
    let result = tuner.tune_for_assets(&assets);
    assert!(result.iterations <= 2);
    assert!(in_declared_space(&result.best_parameters));
}

#[test]
fn test_tune_for_asset() {
    let config = TunerConfig {
        benchmark_runs: 1,
        max_tuning_time_nanos: None,
        max_iterations: 3,
        ratio_priority_milli: 0,
        random_seed: Some(11),
        parallel: false,
    };
    let mut tuner = Tuner::new(config);
    let asset = AssetInfo::new("level1.map".to_string(), 800, small_pattern(800));
    let result = tuner.tune_for_asset(&asset);
    assert!(result.iterations <= 3);
    assert!(in_declared_space(&result.best_parameters));
}

#[test]
fn test_generate_asset_profiles() {
    let config = TunerConfig {
        benchmark_runs: 1,
        max_tuning_time_nanos: None,
        max_iterations: 2,
        ratio_priority_milli: 500,
        random_seed: Some(5),
        parallel: false,
    };
    let mut tuner = Tuner::new(config);
    let assets = vec![
        AssetInfo::new("t.png".to_string(), 600, small_pattern(600)),
        AssetInfo::new("s.mp3".to_string(), 300, small_pattern(300)),
        AssetInfo::new("junk.bin".to_string(), 200, small_pattern(200)),
    ];
    let profiles = tuner.generate_asset_profiles(&assets);
    // one profile per classified category present: Texture and Audio; the
    // unclassified file gets none
    assert_eq!(profiles.len(), 2);
    for profile in &profiles {
        assert!(in_declared_space(&profile.parameters));
    }
}

#[test]
fn test_quick_benchmark() {
    let asset = AssetInfo::new("m.obj".to_string(), 700, small_pattern(700));
    let result = quick_benchmark(&asset);
    assert!(result.is_some());
    let result = result.unwrap();
    assert_eq!(result.original_size, 700);
    assert_eq!(result.parameters, CompressionParameters::new(4096, 3));
}
