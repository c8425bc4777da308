use prompt_compressor::error::CompressionError;
use prompt_compressor::runtime::benchmark::{
    benchmark_session_params, benchmark_session_params_with_batch_size,
    check_batch_benchmark_tokens, check_quality_prompt, check_thread_benchmark_tokens,
    quality_session_params, tuned_configuration, PhysicalBatchBenchmark, PhysicalBatchStep,
    ThreadBenchmark, ThreadStep,
};
use prompt_compressor::runtime::thread_tuning::{
    median_duration, measurements_are_unstable, select_physical_batch_size,
    select_preferred_thread_count, thread_tuning_candidates, valid_runtime_configuration,
    BenchmarkMeasure, Elapsed, PhysicalBatchBenchmarkSample, RuntimeThreadCounts,
    ThreadBenchmarkSample,
};

fn millis(value: u64) -> Elapsed {
    Elapsed::from_millis(value)
}

fn measured_threads(available: usize, time: impl Fn(u32, usize) -> u64) -> (Vec<u32>, RuntimeThreadCounts) {
    let mut benchmark = ThreadBenchmark::start(available);
    let mut order: Vec<u32> = Vec::new();
    loop {
        match benchmark.next(false) {
            ThreadStep::Measure(threads) => {
                let round = order.iter().filter(|past| **past == threads).count();
                order.push(threads);
                let spent = millis(time(threads, round));
                benchmark.record(spent, spent);
            }
            ThreadStep::Selected(counts) => return (order, counts),
            ThreadStep::Cancelled => panic!("nobody cancelled"),
        }
    }
}

#[test]
fn a_single_candidate_is_not_measured() {
    let (order, counts) = measured_threads(1, |_, _| 1);
    assert!(order.is_empty());
    assert_eq!((counts.generation, counts.batch), (1, 1));
}

#[test]
fn stable_candidates_are_measured_three_times_in_turn() {
    let (order, counts) = measured_threads(4, |threads, _| 100 / threads as u64);
    assert_eq!(order, [1, 2, 3, 1, 2, 3, 1, 2, 3]);
    assert_eq!((counts.generation, counts.batch), (3, 3));
}

#[test]
fn an_unstable_candidate_is_measured_twice_more() {
    let (order, counts) = measured_threads(3, |threads, round| {
        if threads == 2 && round == 1 {
            400
        } else {
            100
        }
    });
    assert_eq!(order, [1, 2, 1, 2, 1, 2, 2, 2]);
    assert_eq!((counts.generation, counts.batch), (1, 1));
}

#[test]
fn measuring_can_be_given_up_at_any_measurement() {
    let mut benchmark = ThreadBenchmark::start(8);
    assert!(matches!(benchmark.next(true), ThreadStep::Cancelled));
    assert!(matches!(benchmark.next(false), ThreadStep::Measure(2)));
    benchmark.record(millis(1), millis(1));
    assert!(matches!(benchmark.next(true), ThreadStep::Cancelled));
    assert!(matches!(benchmark.next(false), ThreadStep::Measure(4)));
}

#[test]
fn the_start_moves_on_from_round_to_round_of_sizes() {
    let mut benchmark = PhysicalBatchBenchmark::start(2);
    let mut order: Vec<u32> = Vec::new();
    loop {
        match benchmark.next(false) {
            PhysicalBatchStep::Measure(size) => {
                order.push(size);
                benchmark.record(millis(if size == 256 { 50 } else { 100 }));
            }
            step => {
                assert!(matches!(
                    step,
                    PhysicalBatchStep::Generate {
                        prompt: 0,
                        physical_batch_size: 512
                    }
                ));
                break;
            }
        }
    }
    assert_eq!(order, [128, 256, 512, 256, 512, 128, 512, 128, 256]);
    benchmark.accept_output("a".to_string());
    assert!(matches!(
        benchmark.next(false),
        PhysicalBatchStep::Generate {
            prompt: 0,
            physical_batch_size: 256
        }
    ));
    assert!(matches!(benchmark.next(true), PhysicalBatchStep::Cancelled));
    benchmark.accept_output("a".to_string());
    assert!(matches!(
        benchmark.next(false),
        PhysicalBatchStep::Generate {
            prompt: 1,
            physical_batch_size: 512
        }
    ));
    benchmark.accept_output("b".to_string());
    benchmark.accept_output("b".to_string());
    assert!(matches!(benchmark.next(false), PhysicalBatchStep::Selected(256)));
}

#[test]
fn a_size_that_changes_an_output_is_not_chosen() {
    let mut benchmark = PhysicalBatchBenchmark::start(2);
    while let PhysicalBatchStep::Measure(size) = benchmark.next(false) {
        benchmark.record(millis(if size == 128 { 10 } else { 100 }));
    }
    benchmark.accept_output("same".to_string());
    benchmark.accept_output("other".to_string());
    assert!(matches!(benchmark.next(false), PhysicalBatchStep::Selected(512)));
}

#[test]
fn the_usual_size_needs_no_proof_and_stays_without_prompts() {
    let mut benchmark = PhysicalBatchBenchmark::start(3);
    while let PhysicalBatchStep::Measure(_) = benchmark.next(false) {
        benchmark.record(millis(100));
    }
    assert!(matches!(benchmark.next(false), PhysicalBatchStep::Selected(512)));
    let mut benchmark = PhysicalBatchBenchmark::start(0);
    while let PhysicalBatchStep::Measure(size) = benchmark.next(false) {
        benchmark.record(millis(if size == 128 { 10 } else { 100 }));
    }
    assert!(matches!(benchmark.next(false), PhysicalBatchStep::Selected(512)));
}

#[test]
fn measured_settings_can_be_used() {
    let threads = RuntimeThreadCounts {
        generation: 3,
        batch: 4,
    };
    let chosen = tuned_configuration(threads, Ok(Some(128))).expect("settings");
    assert_eq!((chosen.batch_sizes.logical, chosen.batch_sizes.physical), (512, 128));
    assert!(valid_runtime_configuration(chosen, 5));
    assert!(!valid_runtime_configuration(chosen, 3));
    let kept = tuned_configuration(threads, Err(CompressionError::Runtime("x".to_string())))
        .expect("settings");
    assert_eq!(kept.batch_sizes.physical, 512);
    assert!(tuned_configuration(threads, Ok(None)).is_none());
}

#[test]
fn candidates_lie_within_what_the_machine_has() {
    for available in 0..40usize {
        let candidates = thread_tuning_candidates(available);
        assert!(!candidates.is_empty());
        for pair in candidates.windows(2) {
            assert!(pair[0] < pair[1]);
        }
        for threads in candidates {
            assert!(threads >= 1 && threads as usize <= available.max(1) && threads <= 8);
        }
    }
}

#[test]
fn benchmark_sessions_have_their_sizes() {
    let threads = RuntimeThreadCounts {
        generation: 3,
        batch: 4,
    };
    let usual = benchmark_session_params(threads);
    assert_eq!(
        (usual.n_ctx, usual.n_batch, usual.n_ubatch, usual.n_threads, usual.n_threads_batch),
        (1024, 512, 512, 3, 4)
    );
    assert_eq!(benchmark_session_params_with_batch_size(threads, 128).n_ubatch, 128);
    let quality = quality_session_params(threads, 256);
    assert_eq!((quality.n_ctx, quality.n_ubatch), (2048, 256));
}

#[test]
fn texts_that_are_too_short_or_too_long_are_not_measured() {
    assert!(check_thread_benchmark_tokens(156).is_ok());
    assert_eq!(
        check_thread_benchmark_tokens(155).expect_err("short").message(),
        "runtime error: thread benchmark token sequence is too short"
    );
    assert!(check_batch_benchmark_tokens(528).is_ok());
    assert_eq!(
        check_batch_benchmark_tokens(527).expect_err("short").message(),
        "runtime error: physical batch benchmark token sequence is too short"
    );
    assert!(check_quality_prompt(1856, 128).is_ok());
    assert_eq!(
        check_quality_prompt(1857, 128).expect_err("long").message(),
        "runtime error: 128-token batch quality prompt exceeds its context"
    );
}

#[test]
fn the_middle_measurement_counts() {
    assert_eq!(median_duration(&[millis(9), millis(1), millis(5)]).nanos(), 5_000_000);
    assert_eq!(median_duration(&[millis(7)]).nanos(), 7_000_000);
    assert_eq!(Elapsed::from_parts(2, 5).nanos(), 2_000_000_005);
    assert!(!measurements_are_unstable(&[millis(100), millis(120), millis(110)]));
    assert!(measurements_are_unstable(&[millis(100), millis(121), millis(110)]));
}

#[test]
fn the_smallest_near_the_fastest_is_preferred() {
    let sample = |threads: u32, batch: u64, generation: u64| ThreadBenchmarkSample {
        threads,
        batch_elapsed: millis(batch),
        generation_elapsed: millis(generation),
    };
    let samples = [sample(2, 1030, 1031), sample(4, 1000, 1000), sample(8, 1010, 1005)];
    assert_eq!(select_preferred_thread_count(&samples, BenchmarkMeasure::Batch), 2);
    assert_eq!(select_preferred_thread_count(&samples, BenchmarkMeasure::Generation), 4);
    let size = |physical_batch_size: u32, elapsed: u64| PhysicalBatchBenchmarkSample {
        physical_batch_size,
        elapsed: millis(elapsed),
    };
    assert_eq!(select_physical_batch_size(&[size(128, 97), size(256, 99), size(512, 100)]), 128);
    assert_eq!(select_physical_batch_size(&[size(128, 98), size(256, 99), size(512, 100)]), 512);
}
