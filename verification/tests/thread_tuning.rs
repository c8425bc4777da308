//! Threads and batches of a runtime.
use prompt_compressor::runtime::benchmark::{
    BATCH_SIZE_BENCHMARK_TOKENS, BATCH_SIZE_QUALITY_CONTEXT_LENGTH,
    BATCH_SIZE_QUALITY_MAX_PREDICTIONS, BENCHMARK_BATCH_TOKENS, BENCHMARK_GENERATION_TOKENS,
    BENCHMARK_INITIAL_ROUNDS, BENCHMARK_UNSTABLE_EXTRA_ROUNDS, BENCHMARK_WARMUP_TOKENS,
};
use prompt_compressor::runtime::thread_tuning::{
    BenchmarkMeasure, CpuInstructionCapabilities, DEFAULT_PHYSICAL_BATCH_SIZE, Elapsed,
    PHYSICAL_BATCH_SIZE_CANDIDATES, PhysicalBatchBenchmarkSample, RuntimeThreadCounts,
    ThreadBenchmarkSample, cpu_instruction_profile, manual_runtime_thread_counts_from_values,
    measurements_are_unstable, median_duration, select_physical_batch_size,
    select_preferred_thread_count, select_quality_preserving_physical_batch_size,
    thread_tuning_candidates,
};

#[test]
fn tuning_candidates_cover_low_bandwidth_and_high_thread_counts() {
    assert_eq!(thread_tuning_candidates(1), [1]);
    assert_eq!(thread_tuning_candidates(4), [1, 2, 3]);
    assert_eq!(thread_tuning_candidates(8), [2, 4, 5, 6, 7]);
    assert_eq!(thread_tuning_candidates(16), [2, 4, 5, 6, 7, 8]);
}

#[test]
fn automatic_tuning_keeps_a_representative_benchmark_workload() {
    assert_eq!(BENCHMARK_WARMUP_TOKENS, 16);
    assert_eq!(BENCHMARK_BATCH_TOKENS, 128);
    assert_eq!(BENCHMARK_GENERATION_TOKENS, 12);
    assert_eq!(BATCH_SIZE_BENCHMARK_TOKENS, 512);
    assert_eq!(BATCH_SIZE_QUALITY_CONTEXT_LENGTH, 2_048);
    assert_eq!(BATCH_SIZE_QUALITY_MAX_PREDICTIONS, 192);
    assert_eq!(BENCHMARK_INITIAL_ROUNDS, 3);
    assert_eq!(BENCHMARK_UNSTABLE_EXTRA_ROUNDS, 2);
    assert_eq!(PHYSICAL_BATCH_SIZE_CANDIDATES, [128, 256, 512]);
}

#[test]
fn manual_thread_counts_require_complete_values_within_the_cpu_limit() {
    assert_eq!(
        manual_runtime_thread_counts_from_values(Some("manual"), Some("3"), Some("4"), 4)
            .expect("valid manual values"),
        Some(RuntimeThreadCounts {
            generation: 3,
            batch: 4,
        })
    );
    assert!(
        manual_runtime_thread_counts_from_values(Some("manual"), Some("5"), Some("4"), 4)
            .is_err()
    );
    assert!(
        manual_runtime_thread_counts_from_values(Some("manual"), Some("3"), None, 4).is_err()
    );
    assert_eq!(
        manual_runtime_thread_counts_from_values(Some("auto"), None, None, 4)
            .expect("automatic mode"),
        None
    );
}

#[test]
fn near_fastest_selection_prefers_fewer_threads() {
    let samples = [
        ThreadBenchmarkSample {
            threads: 5,
            batch_elapsed: Elapsed::from_millis(103),
            generation_elapsed: Elapsed::from_millis(110),
        },
        ThreadBenchmarkSample {
            threads: 6,
            batch_elapsed: Elapsed::from_millis(100),
            generation_elapsed: Elapsed::from_millis(100),
        },
        ThreadBenchmarkSample {
            threads: 7,
            batch_elapsed: Elapsed::from_millis(100),
            generation_elapsed: Elapsed::from_millis(99),
        },
    ];

    assert_eq!(
        select_preferred_thread_count(&samples, BenchmarkMeasure::Batch),
        5
    );
    assert_eq!(
        select_preferred_thread_count(&samples, BenchmarkMeasure::Generation),
        6
    );
}

#[test]
fn physical_batch_selection_requires_a_measurable_gain() {
    let default = PhysicalBatchBenchmarkSample {
        physical_batch_size: 512,
        elapsed: Elapsed::from_millis(100),
    };
    assert_eq!(
        select_physical_batch_size(&[
            PhysicalBatchBenchmarkSample {
                physical_batch_size: 128,
                elapsed: Elapsed::from_millis(97),
            },
            PhysicalBatchBenchmarkSample {
                physical_batch_size: 256,
                elapsed: Elapsed::from_millis(99),
            },
            default,
        ]),
        128
    );
    assert_eq!(
        select_physical_batch_size(&[
            PhysicalBatchBenchmarkSample {
                physical_batch_size: 128,
                elapsed: Elapsed::from_millis(98),
            },
            PhysicalBatchBenchmarkSample {
                physical_batch_size: 256,
                elapsed: Elapsed::from_millis(99),
            },
            default,
        ]),
        512
    );
}

#[test]
fn physical_batch_selection_rejects_output_changes() {
    assert_eq!(
        select_quality_preserving_physical_batch_size(256, false),
        DEFAULT_PHYSICAL_BATCH_SIZE
    );
    assert_eq!(
        select_quality_preserving_physical_batch_size(256, true),
        256
    );
    assert_eq!(
        select_quality_preserving_physical_batch_size(DEFAULT_PHYSICAL_BATCH_SIZE, true),
        DEFAULT_PHYSICAL_BATCH_SIZE
    );
}

#[test]
fn instruction_profile_requires_all_avx2_engine_features() {
    assert_eq!(
        cpu_instruction_profile(CpuInstructionCapabilities {
            sse42: true,
            avx2: true,
            fma: true,
            f16c: true,
            bmi2: true,
            ..Default::default()
        }),
        "avx2-fma-f16c-bmi2"
    );
    assert_eq!(
        cpu_instruction_profile(CpuInstructionCapabilities {
            sse42: true,
            avx2: true,
            fma: true,
            f16c: true,
            bmi2: true,
            avx512f: true,
            avx512cd: true,
            avx512bw: true,
            avx512dq: true,
            avx512vl: true,
        }),
        "avx512-core"
    );
    assert_eq!(
        cpu_instruction_profile(CpuInstructionCapabilities {
            sse42: true,
            avx2: true,
            fma: true,
            f16c: true,
            ..Default::default()
        }),
        "sse4.2"
    );
    assert_eq!(
        cpu_instruction_profile(CpuInstructionCapabilities::default()),
        "unsupported"
    );
}

#[test]
fn median_and_stability_ignore_one_slow_measurement() {
    let values = [
        Elapsed::from_millis(100),
        Elapsed::from_millis(101),
        Elapsed::from_millis(180),
    ];
    assert_eq!(median_duration(&values), Elapsed::from_millis(101));
    assert!(measurements_are_unstable(&values));
    assert!(!measurements_are_unstable(&[
        Elapsed::from_millis(100),
        Elapsed::from_millis(105),
        Elapsed::from_millis(110),
    ]));
}
