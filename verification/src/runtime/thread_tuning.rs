//! How many threads a model runs on and how its batches are cut: by rule, by hand or as measured.
use vstd::prelude::*;
use crate::config::catalog::{ModelDefinition, RuntimeDefinition};
use crate::error;
use crate::error::CompressionError;
use crate::integers;
use crate::parts;
use crate::runtime::digest;
use crate::text;
use crate::text_map::TextMap;

verus! {

/// The version of the records of measured settings.
pub const THREAD_TUNING_SCHEMA_VERSION: u32 = 2;

/// The version of the way in which settings are measured.
pub const THREAD_TUNING_CONTRACT_VERSION: u32 = 11;

/// The most threads that are used without being asked for.
pub const MAX_AUTOMATIC_RUNTIME_THREADS: usize = 8;

/// The variable that says whether the number of threads is set by hand.
pub const THREAD_MODE_ENV: &'static str = "TRIMPROMPT_THREAD_MODE";

/// The variable that holds the threads for generation.
pub const GENERATION_THREADS_ENV: &'static str = "TRIMPROMPT_GENERATION_THREADS";

/// The variable that holds the threads for batches.
pub const BATCH_THREADS_ENV: &'static str = "TRIMPROMPT_BATCH_THREADS";

/// How much slower than the fastest a measurement may be to count as fast, in percent.
pub const NEAR_FASTEST_PERCENT: u128 = 103;

/// How far the slowest measurement may lie above the fastest for them to be stable, in percent.
pub const BENCHMARK_STABLE_PERCENT: u128 = 120;

/// The tokens that are handed to the runtime at once.
pub const DEFAULT_LOGICAL_BATCH_SIZE: u32 = 512;

/// The tokens that are computed at once where nothing was measured.
pub const DEFAULT_PHYSICAL_BATCH_SIZE: u32 = 512;

/// The numbers of tokens that may be computed at once.
pub const PHYSICAL_BATCH_SIZE_CANDIDATES: [u32; 3] = [128, 256, 512];

/// How much faster another number of tokens must be to be preferred, in percent.
pub const PHYSICAL_BATCH_MINIMUM_GAIN_PERCENT: u128 = 3;

/// The threads of a runtime.
#[derive(Debug, Clone, Copy, PartialEq, Eq, Structural)]
pub struct RuntimeThreadCounts {
    pub generation: u32,
    pub batch: u32,
}

/// How many tokens a runtime takes and computes at once.
#[derive(Debug, Clone, Copy, PartialEq, Eq, Structural)]
pub struct RuntimeBatchSizes {
    pub logical: u32,
    pub physical: u32,
}

/// The settings of a runtime.
#[derive(Debug, Clone, Copy, PartialEq, Eq, Structural)]
pub struct RuntimeInferenceConfig {
    pub threads: RuntimeThreadCounts,
    pub batch_sizes: RuntimeBatchSizes,
}

/// The threads that may be used of those that the machine has: all but one, and at most eight.
pub open spec fn usable_threads(available_threads: int) -> int {
    let left = if available_threads > 1 {
        available_threads - 1
    } else {
        available_threads
    };
    if left < 1 {
        1
    } else if left > MAX_AUTOMATIC_RUNTIME_THREADS {
        MAX_AUTOMATIC_RUNTIME_THREADS as int
    } else {
        left
    }
}

/// The threads that may be used of those that the machine has.
fn usable(available_threads: usize) -> (r: u32)
    ensures
        r == usable_threads(available_threads as int),
        1 <= r <= 8,
{
    let left: usize = if available_threads > 1 {
        available_threads - 1
    } else {
        available_threads
    };
    if left < 1 {
        1
    } else if left > MAX_AUTOMATIC_RUNTIME_THREADS {
        8
    } else {
        left as u32
    }
}

/// Value of [`automatic_runtime_thread_counts`].
pub open spec fn spec_automatic_runtime_thread_counts(available_threads: int) -> RuntimeThreadCounts {
    let batch = usable_threads(available_threads) as u32;
    RuntimeThreadCounts {
        generation: if batch >= 7 {
            (batch - 1) as u32
        } else {
            batch
        },
        batch,
    }
}

/// The threads of a runtime by rule: one is left to the application, and from seven on generation
/// leaves another.
pub fn automatic_runtime_thread_counts(available_threads: usize) -> (r: RuntimeThreadCounts)
    ensures
        r == spec_automatic_runtime_thread_counts(available_threads as int),
{
    let batch: u32 = usable(available_threads);
    let generation: u32 = if batch >= 7 {
        batch - 1
    } else {
        batch
    };
    RuntimeThreadCounts { generation, batch }
}

/// Batches as they are cut where nothing was measured.
pub fn default_runtime_batch_sizes() -> (r: RuntimeBatchSizes)
    ensures
        r.logical == DEFAULT_LOGICAL_BATCH_SIZE,
        r.physical == DEFAULT_PHYSICAL_BATCH_SIZE,
{
    RuntimeBatchSizes {
        logical: DEFAULT_LOGICAL_BATCH_SIZE,
        physical: DEFAULT_PHYSICAL_BATCH_SIZE,
    }
}

/// Value of [`runtime_config_for_threads`].
pub open spec fn spec_runtime_config_for_threads(threads: RuntimeThreadCounts) -> RuntimeInferenceConfig {
    RuntimeInferenceConfig {
        threads,
        batch_sizes: RuntimeBatchSizes {
            logical: DEFAULT_LOGICAL_BATCH_SIZE,
            physical: DEFAULT_PHYSICAL_BATCH_SIZE,
        },
    }
}

/// Settings with the threads.
pub fn runtime_config_for_threads(threads: RuntimeThreadCounts) -> (r: RuntimeInferenceConfig)
    ensures
        r == spec_runtime_config_for_threads(threads),
{
    RuntimeInferenceConfig { threads, batch_sizes: default_runtime_batch_sizes() }
}

/// Whether the number of threads is left to the application.
pub open spec fn spec_is_automatic(threads: Seq<char>) -> bool {
    text::spec_same_ignoring_case(threads, "auto"@)
}

/// Whether the runtime leaves the number of threads to the application.
pub fn is_automatic(runtime: &RuntimeDefinition) -> (r: bool)
    ensures
        r == spec_is_automatic(runtime@.threads),
{
    text::same_ignoring_case(&runtime.threads, "auto")
}

/// Value of [`parse_runtime_threads`].
pub open spec fn spec_parse_runtime_threads(
    id: Seq<char>,
    threads: Seq<char>,
    available_threads: int,
) -> Result<RuntimeThreadCounts, error::ErrorView> {
    if spec_is_automatic(threads) {
        Ok(spec_automatic_runtime_thread_counts(available_threads))
    } else {
        match integers::spec_parse(threads, 10, u32::MAX as int) {
            Err(fault) => Err(
                error::ErrorView::InvalidConfig(
                    "runtime '"@ + id + "' has invalid threads value '"@ + threads + "': "@
                        + integers::spec_fault_message(fault),
                ),
            ),
            Ok(count) => if count == 0 {
                Err(
                    error::ErrorView::InvalidConfig(
                        "runtime '"@ + id + "' threads must be greater than zero"@,
                    ),
                )
            } else {
                Ok(RuntimeThreadCounts { generation: count as u32, batch: count as u32 })
            },
        }
    }
}

/// The threads that the runtime is configured with.
pub fn parse_runtime_threads(runtime: &RuntimeDefinition, available_threads: usize) -> (r: Result<
    RuntimeThreadCounts,
    CompressionError,
>)
    ensures
        error::outcome(r) == spec_parse_runtime_threads(
            runtime@.id,
            runtime@.threads,
            available_threads as int,
        ),
{
    if is_automatic(runtime) {
        return Ok(automatic_runtime_thread_counts(available_threads));
    }
    match integers::parse(&runtime.threads, 10, u32::MAX as u64) {
        Err(fault) => {
            let start: String = text::concat5(
                "runtime '",
                &runtime.id,
                "' has invalid threads value '",
                &runtime.threads,
                "': ",
            );
            Err(CompressionError::InvalidConfig(text::concat2(&start, fault.message())))
        },
        Ok(count) => {
            if count == 0 {
                Err(
                    CompressionError::InvalidConfig(
                        text::concat3(
                            "runtime '",
                            &runtime.id,
                            "' threads must be greater than zero",
                        ),
                    ),
                )
            } else {
                Ok(RuntimeThreadCounts { generation: count as u32, batch: count as u32 })
            }
        },
    }
}

/// The contents of an optional text.
pub open spec fn view_text(value: Option<&str>) -> Option<Seq<char>> {
    match value {
        Some(value) => Some(value@),
        None => None,
    }
}

/// The greatest number of threads that may be set by hand.
pub open spec fn manual_maximum(available_threads: int) -> int {
    if available_threads < 1 {
        1
    } else if available_threads > u32::MAX {
        u32::MAX as int
    } else {
        available_threads
    }
}

/// Value of [`manual_thread_count`].
pub open spec fn spec_manual_thread_count(
    name: Seq<char>,
    value: Option<Seq<char>>,
    available_threads: int,
) -> Result<u32, error::ErrorView> {
    match value {
        None => Err(
            error::ErrorView::InvalidConfig("manual "@ + name + " thread count is missing"@),
        ),
        Some(value) => match integers::spec_parse(value, 10, u32::MAX as int) {
            Err(fault) => Err(
                error::ErrorView::InvalidConfig(
                    "manual "@ + name + " thread count '"@ + value + "' is invalid: "@
                        + integers::spec_fault_message(fault),
                ),
            ),
            Ok(count) => if 1 <= count <= manual_maximum(available_threads) {
                Ok(count as u32)
            } else {
                Err(
                    error::ErrorView::InvalidConfig(
                        "manual "@ + name + " thread count must be between 1 and "@
                            + text::spec_decimal_of(manual_maximum(available_threads)),
                    ),
                )
            },
        },
    }
}

/// A number of threads that was set by hand.
fn manual_thread_count(name: &str, value: Option<&str>, available_threads: usize) -> (r: Result<
    u32,
    CompressionError,
>)
    ensures
        error::outcome(r) == spec_manual_thread_count(
            name@,
            view_text(value),
            available_threads as int,
        ),
{
    let value: &str = match value {
        Some(value) => value,
        None => {
            return Err(
                CompressionError::InvalidConfig(
                    text::concat3("manual ", name, " thread count is missing"),
                ),
            );
        },
    };
    let maximum: u64 = if available_threads < 1 {
        1
    } else if available_threads as u64 > u32::MAX as u64 {
        u32::MAX as u64
    } else {
        available_threads as u64
    };
    match integers::parse(value, 10, u32::MAX as u64) {
        Err(fault) => {
            let start: String = text::concat5(
                "manual ",
                name,
                " thread count '",
                value,
                "' is invalid: ",
            );
            Err(CompressionError::InvalidConfig(text::concat2(&start, fault.message())))
        },
        Ok(count) => {
            if 1 <= count && count <= maximum {
                Ok(count as u32)
            } else {
                Err(
                    CompressionError::InvalidConfig(
                        text::concat4(
                            "manual ",
                            name,
                            " thread count must be between 1 and ",
                            &text::decimal(maximum),
                        ),
                    ),
                )
            }
        },
    }
}

/// Value of [`manual_runtime_thread_counts_from_values`].
pub open spec fn spec_manual_runtime_thread_counts(
    mode: Option<Seq<char>>,
    generation: Option<Seq<char>>,
    batch: Option<Seq<char>>,
    available_threads: int,
) -> Result<Option<RuntimeThreadCounts>, error::ErrorView> {
    if mode != Some("manual"@) {
        Ok(None)
    } else {
        match spec_manual_thread_count("generation"@, generation, available_threads) {
            Err(error) => Err(error),
            Ok(generation) => match spec_manual_thread_count("batch"@, batch, available_threads) {
                Err(error) => Err(error),
                Ok(batch) => Ok(Some(RuntimeThreadCounts { generation, batch })),
            },
        }
    }
}

/// The threads that were set by hand, where they were.
pub fn manual_runtime_thread_counts_from_values(
    mode: Option<&str>,
    generation: Option<&str>,
    batch: Option<&str>,
    available_threads: usize,
) -> (r: Result<Option<RuntimeThreadCounts>, CompressionError>)
    ensures
        error::outcome(r) == spec_manual_runtime_thread_counts(
            view_text(mode),
            view_text(generation),
            view_text(batch),
            available_threads as int,
        ),
{
    let manual: bool = match mode {
        Some(mode) => text::same(mode, "manual"),
        None => false,
    };
    if !manual {
        return Ok(None);
    }
    let generation: u32 = match manual_thread_count("generation", generation, available_threads) {
        Ok(count) => count,
        Err(error) => {
            return Err(error);
        },
    };
    let batch: u32 = match manual_thread_count("batch", batch, available_threads) {
        Ok(count) => count,
        Err(error) => {
            return Err(error);
        },
    };
    Ok(Some(RuntimeThreadCounts { generation, batch }))
}

/// The number of threads is worth a measurement: with few threads each is; with more, two and four
/// for machines with slow memory, and the highest four.
pub open spec fn is_candidate(threads: int, maximum: int) -> bool {
    1 <= threads <= maximum && (maximum <= 4 || threads == 2 || threads == 4 || threads >= maximum
        - 3)
}

/// The candidates up to a number, from the smallest on.
pub open spec fn candidates_up_to(threads: int, maximum: int) -> Seq<u32>
    decreases threads,
{
    if threads <= 0 {
        Seq::empty()
    } else if is_candidate(threads, maximum) {
        candidates_up_to(threads - 1, maximum).push(threads as u32)
    } else {
        candidates_up_to(threads - 1, maximum)
    }
}

/// Value of [`thread_tuning_candidates`].
pub open spec fn spec_thread_tuning_candidates(available_threads: int) -> Seq<u32> {
    candidates_up_to(usable_threads(available_threads), usable_threads(available_threads))
}

/// The numbers of threads that are worth a measurement, from the smallest on.
pub fn thread_tuning_candidates(available_threads: usize) -> (r: Vec<u32>)
    ensures
        r@ == spec_thread_tuning_candidates(available_threads as int),
{
    let maximum: u32 = usable(available_threads);
    let mut candidates: Vec<u32> = Vec::new();
    let mut threads: u32 = 0;
    while threads < maximum
        invariant
            threads <= maximum <= 8,
            candidates@ == candidates_up_to(threads as int, maximum as int),
        decreases maximum - threads,
    {
        threads = threads + 1;
        if maximum <= 4 || threads == 2 || threads == 4 || threads + 3 >= maximum {
            candidates.push(threads);
        }
    }
    candidates
}

/// What the candidates up to a number are.
proof fn candidates_hold(threads: int, maximum: int)
    requires
        threads <= maximum <= 8,
    ensures
        ({
            let candidates = candidates_up_to(threads, maximum);
            &&& candidates.len() <= (if threads < 0 {
                0
            } else {
                threads
            })
            &&& forall|i: int|
                0 <= i < candidates.len() ==> is_candidate(#[trigger] candidates[i] as int, maximum)
                    && candidates[i] <= threads
            &&& forall|i: int, j: int|
                0 <= i < j < candidates.len() ==> #[trigger] candidates[i] < #[trigger] candidates[j]
            &&& forall|t: u32|
                t <= threads && #[trigger] is_candidate(t as int, maximum)
                    ==> candidates.contains(t)
        }),
    decreases threads,
{
    if threads > 0 {
        candidates_hold(threads - 1, maximum);
        let shorter = candidates_up_to(threads - 1, maximum);
        let candidates = candidates_up_to(threads, maximum);
        assert forall|t: u32|
            t <= threads && #[trigger] is_candidate(
                t as int,
                maximum,
            ) implies candidates.contains(t) by {
            if t == threads {
                assert(candidates[candidates.len() - 1] == t);
            } else {
                let i = choose|i: int| 0 <= i < shorter.len() && shorter[i] == t;
                assert(candidates[i] == t);
            }
        }
    }
}

/// The candidates ascend, there is at least one and at most eight, all of them may be used, and
/// the highest that may be used is among them, as are two and four where they may be used.
pub proof fn candidates_are_usable(available_threads: int)
    ensures
        ({
            let candidates = spec_thread_tuning_candidates(available_threads);
            let maximum = usable_threads(available_threads);
            &&& 1 <= candidates.len() <= 8
            &&& forall|i: int|
                0 <= i < candidates.len() ==> 1 <= #[trigger] candidates[i] <= maximum
            &&& forall|i: int, j: int|
                0 <= i < j < candidates.len() ==> #[trigger] candidates[i] < #[trigger] candidates[j]
            &&& candidates.contains(maximum as u32)
            &&& maximum >= 2 ==> candidates.contains(2u32)
            &&& maximum >= 4 ==> candidates.contains(4u32)
        }),
{
    let maximum = usable_threads(available_threads);
    candidates_hold(maximum, maximum);
    assert(is_candidate((maximum as u32) as int, maximum));
    if maximum >= 2 {
        assert(is_candidate(2u32 as int, maximum));
    }
    if maximum >= 4 {
        assert(is_candidate(4u32 as int, maximum));
    }
}

/// The greatest number of nanoseconds that a span of time has.
pub const MAX_NANOS: u128 = 18446744073709551619294967295;

/// A span of time that was measured.
#[derive(Debug, Clone, Copy, PartialEq, Eq, Structural)]
pub struct Elapsed {
    nanos: u128,
}

impl Elapsed {
    /// Spans of time are bounded.
    #[verifier::type_invariant]
    spec fn well_formed(self) -> bool {
        self.nanos <= MAX_NANOS
    }

    /// The nanoseconds of the span.
    pub closed spec fn spec_nanos(self) -> int {
        self.nanos as int
    }

    /// The span of so many seconds and nanoseconds.
    pub fn from_parts(seconds: u64, nanos: u32) -> (r: Elapsed)
        ensures
            r.spec_nanos() == seconds * 1000000000 + nanos,
    {
        Elapsed { nanos: seconds as u128 * 1000000000 + nanos as u128 }
    }

    /// The span of so many milliseconds.
    pub fn from_millis(millis: u64) -> (r: Elapsed)
        ensures
            r.spec_nanos() == millis * 1000000,
    {
        Elapsed { nanos: millis as u128 * 1000000 }
    }

    /// The nanoseconds of the span.
    pub fn nanos(&self) -> (r: u128)
        ensures
            r == self.spec_nanos(),
            r <= MAX_NANOS,
    {
        proof {
            use_type_invariant(self);
        }
        self.nanos
    }
}

/// The nanoseconds of spans.
pub open spec fn nanos_of(values: Seq<Elapsed>) -> Seq<int> {
    values.map_values(|value: Elapsed| value.spec_nanos())
}

/// The middle of the nanoseconds: of those in order, that at half their number.
pub open spec fn spec_median(nanos: Seq<int>) -> int {
    if nanos.len() == 0 {
        0
    } else {
        nanos.sort()[nanos.len() as int / 2]
    }
}

/// The spans from the shortest to the longest.
fn sorted_spans(values: &[Elapsed]) -> (r: Vec<Elapsed>)
    ensures
        nanos_of(r@) == nanos_of(values@).sort(),
        r@.len() == values@.len(),
{
    broadcast use {vstd::seq_lib::to_multiset_insert, vstd::seq_lib::to_multiset_build};

    let ghost before = |a: int, b: int| a <= b;
    let mut sorted: Vec<Elapsed> = Vec::new();
    assert(nanos_of(sorted@) =~= nanos_of(values@.take(0)));
    let total: usize = values.len();
    let mut i: usize = 0;
    while i < total
        invariant
            i <= total == values@.len(),
            sorted@.len() == i,
            before == (|a: int, b: int| a <= b),
            vstd::relations::sorted_by(nanos_of(sorted@), before),
            nanos_of(sorted@).to_multiset() == nanos_of(values@.take(i as int)).to_multiset(),
        decreases total - i,
    {
        broadcast use {vstd::seq_lib::to_multiset_insert, vstd::seq_lib::to_multiset_build};

        let value: Elapsed = values[i];
        let nanos: u128 = value.nanos();
        let ghost shorter = nanos_of(sorted@);
        let mut place: usize = 0;
        while place < sorted.len() && sorted[place].nanos() <= nanos
            invariant
                place <= sorted@.len(),
                nanos == value.spec_nanos(),
                forall|j: int|
                    0 <= j < place ==> (#[trigger] sorted@[j]).spec_nanos() <= value.spec_nanos(),
            decreases sorted@.len() - place,
        {
            place = place + 1;
        }
        sorted.insert(place, value);
        proof {
            let longer = nanos_of(sorted@);
            assert(longer =~= shorter.insert(place as int, value.spec_nanos()));
            assert forall|j: int, k: int| 0 <= j < k < longer.len() implies #[trigger] before(
                longer[j],
                longer[k],
            ) by {
                let low = if j < place {
                    j
                } else {
                    j - 1
                };
                let high = if k < place {
                    k
                } else {
                    k - 1
                };
                if j != place && k != place {
                    assert(before(shorter[low], shorter[high]));
                } else if j == place {
                    assert(place <= high);
                    if (place as int) < high {
                        assert(before(shorter[place as int], shorter[high]));
                    }
                    assert(shorter[place as int] > value.spec_nanos());
                }
            }
            assert(nanos_of(values@.take(i + 1)) =~= nanos_of(values@.take(i as int)).push(
                value.spec_nanos(),
            ));
        }
        i = i + 1;
    }
    proof {
        assert(values@.take(values@.len() as int) =~= values@);
        nanos_of(values@).lemma_sort_ensures();
        vstd::seq_lib::lemma_sorted_unique(nanos_of(sorted@), nanos_of(values@).sort(), before);
    }
    sorted
}

/// The middle of the spans; none where there are none.
pub fn median_duration(values: &[Elapsed]) -> (r: Elapsed)
    ensures
        r.spec_nanos() == spec_median(nanos_of(values@)),
{
    let sorted: Vec<Elapsed> = sorted_spans(values);
    if sorted.len() == 0 {
        Elapsed { nanos: 0 }
    } else {
        assert(nanos_of(sorted@)[sorted@.len() as int / 2]
            == sorted@[sorted@.len() as int / 2].spec_nanos());
        sorted[sorted.len() / 2]
    }
}

/// The condition of [`measurements_are_unstable`]: every span took time, and one took more than a
/// fifth longer than another.
pub open spec fn spec_measurements_are_unstable(nanos: Seq<int>) -> bool {
    &&& forall|i: int| 0 <= i < nanos.len() ==> #[trigger] nanos[i] > 0
    &&& exists|i: int, j: int|
        0 <= i < nanos.len() && 0 <= j < nanos.len() && #[trigger] nanos[j] * 100
            > #[trigger] nanos[i] * BENCHMARK_STABLE_PERCENT
}

/// Whether the spans lie too far apart for their middle to be trusted.
pub fn measurements_are_unstable(values: &[Elapsed]) -> (r: bool)
    ensures
        r == spec_measurements_are_unstable(nanos_of(values@)),
{
    let ghost nanos = nanos_of(values@);
    let total: usize = values.len();
    if total == 0 {
        return false;
    }
    let mut least: u128 = values[0].nanos();
    let mut greatest: u128 = least;
    let ghost mut low: int = 0;
    let ghost mut high: int = 0;
    let mut i: usize = 1;
    while i < total
        invariant
            1 <= i <= total == values@.len(),
            nanos == nanos_of(values@),
            least <= MAX_NANOS,
            greatest <= MAX_NANOS,
            0 <= low < i,
            0 <= high < i,
            nanos[low] == least,
            nanos[high] == greatest,
            forall|j: int| 0 <= j < i ==> least <= #[trigger] nanos[j] <= greatest,
        decreases total - i,
    {
        let value: u128 = values[i].nanos();
        assert(nanos[i as int] == value);
        if value < least {
            least = value;
            proof {
                low = i as int;
            }
        }
        if value > greatest {
            greatest = value;
            proof {
                high = i as int;
            }
        }
        i = i + 1;
    }
    let unstable: bool = least > 0 && greatest * 100 > least * BENCHMARK_STABLE_PERCENT;
    proof {
        if unstable {
            assert(nanos[high] * 100 > nanos[low] * BENCHMARK_STABLE_PERCENT);
        } else if least > 0 {
            assert forall|a: int, b: int|
                0 <= a < nanos.len() && 0 <= b < nanos.len() implies !(#[trigger] nanos[b] * 100
                > #[trigger] nanos[a] * BENCHMARK_STABLE_PERCENT) by {
                assert(nanos[b] <= greatest);
                assert(nanos[a] >= least);
            }
        } else {
            assert(nanos[low] == 0);
        }
    }
    unstable
}

/// How long a number of threads took.
#[derive(Debug, Clone, Copy, PartialEq, Eq, Structural)]
pub struct ThreadBenchmarkSample {
    pub threads: u32,
    pub batch_elapsed: Elapsed,
    pub generation_elapsed: Elapsed,
}

/// What of a sample is looked at.
#[derive(Debug, Clone, Copy, PartialEq, Eq, Structural)]
pub enum BenchmarkMeasure {
    Batch,
    Generation,
}

/// The time of a sample.
pub open spec fn time_of(sample: ThreadBenchmarkSample, measure: BenchmarkMeasure) -> int {
    match measure {
        BenchmarkMeasure::Batch => sample.batch_elapsed.spec_nanos(),
        BenchmarkMeasure::Generation => sample.generation_elapsed.spec_nanos(),
    }
}

/// The time of a sample.
fn nanos_of_sample(sample: &ThreadBenchmarkSample, measure: BenchmarkMeasure) -> (r: u128)
    ensures
        r == time_of(*sample, measure),
        r <= MAX_NANOS,
{
    match measure {
        BenchmarkMeasure::Batch => sample.batch_elapsed.nanos(),
        BenchmarkMeasure::Generation => sample.generation_elapsed.nanos(),
    }
}

/// The threads of samples.
pub open spec fn threads_of(samples: Seq<ThreadBenchmarkSample>) -> Seq<u32> {
    samples.map_values(|sample: ThreadBenchmarkSample| sample.threads)
}

/// The times of samples.
pub open spec fn times_of(samples: Seq<ThreadBenchmarkSample>, measure: BenchmarkMeasure) -> Seq<
    int,
> {
    samples.map_values(|sample: ThreadBenchmarkSample| time_of(sample, measure))
}

/// The time is at most three percent longer than every other.
pub open spec fn is_near_fastest(times: Seq<int>, i: int) -> bool {
    forall|k: int|
        0 <= k < times.len() ==> times[i] * 100 <= #[trigger] times[k] * NEAR_FASTEST_PERCENT
}

/// The number of threads is the smallest whose time is near the fastest; one where nothing was
/// measured.
pub open spec fn is_preferred(threads: Seq<u32>, times: Seq<int>, chosen: u32) -> bool {
    if times.len() == 0 {
        chosen == 1
    } else {
        &&& exists|i: int|
            0 <= i < times.len() && #[trigger] is_near_fastest(times, i) && threads[i] == chosen
        &&& forall|i: int|
            0 <= i < times.len() && #[trigger] is_near_fastest(times, i) ==> chosen <= threads[i]
    }
}

/// The smallest number of threads whose time is near the fastest.
pub fn select_preferred_thread_count(
    samples: &[ThreadBenchmarkSample],
    measure: BenchmarkMeasure,
) -> (r: u32)
    ensures
        is_preferred(threads_of(samples@), times_of(samples@, measure), r),
{
    let ghost times = times_of(samples@, measure);
    let ghost threads = threads_of(samples@);
    let total: usize = samples.len();
    if total == 0 {
        return 1;
    }
    let mut fastest: u128 = nanos_of_sample(&samples[0], measure);
    let ghost mut first: int = 0;
    let mut i: usize = 1;
    while i < total
        invariant
            1 <= i <= total == samples@.len(),
            times == times_of(samples@, measure),
            fastest <= MAX_NANOS,
            0 <= first < i,
            fastest == times[first],
            forall|k: int| 0 <= k < i ==> fastest <= #[trigger] times[k],
        decreases total - i,
    {
        let nanos: u128 = nanos_of_sample(&samples[i], measure);
        assert(times[i as int] == nanos);
        if nanos < fastest {
            fastest = nanos;
            proof {
                first = i as int;
            }
        }
        i = i + 1;
    }
    assert(is_near_fastest(times, first));
    let mut found: Option<u32> = None;
    let ghost mut place: int = 0;
    let mut j: usize = 0;
    while j < total
        invariant
            j <= total == samples@.len(),
            times == times_of(samples@, measure),
            threads == threads_of(samples@),
            fastest <= MAX_NANOS,
            0 <= first < total,
            fastest == times[first],
            forall|k: int| 0 <= k < total ==> fastest <= #[trigger] times[k],
            match found {
                Some(least) => 0 <= place < j && is_near_fastest(times, place) && threads[place]
                    == least && forall|k: int|
                    0 <= k < j && #[trigger] is_near_fastest(times, k) ==> least <= threads[k],
                None => forall|k: int| 0 <= k < j ==> !#[trigger] is_near_fastest(times, k),
            },
        decreases total - j,
    {
        let nanos: u128 = nanos_of_sample(&samples[j], measure);
        let near: bool = nanos * 100 <= fastest * NEAR_FASTEST_PERCENT;
        proof {
            assert(times[j as int] == nanos);
            assert(threads[j as int] == samples@[j as int].threads);
            if near {
                assert forall|k: int| 0 <= k < times.len() implies times[j as int] * 100
                    <= #[trigger] times[k] * NEAR_FASTEST_PERCENT by {
                    assert(fastest <= times[k]);
                }
                assert(is_near_fastest(times, j as int));
            } else {
                assert(!is_near_fastest(times, j as int)) by {
                    assert(times[first] == fastest);
                }
            }
        }
        if near {
            let count: u32 = samples[j].threads;
            match found {
                Some(least) => {
                    if count < least {
                        found = Some(count);
                        proof {
                            place = j as int;
                        }
                    }
                },
                None => {
                    found = Some(count);
                    proof {
                        place = j as int;
                    }
                },
            }
        }
        j = j + 1;
    }
    match found {
        Some(count) => {
            assert(is_near_fastest(times, place));
            count
        },
        None => 1,
    }
}

/// At most one number of threads is preferred.
pub proof fn preference_is_unique(threads: Seq<u32>, times: Seq<int>, a: u32, b: u32)
    requires
        is_preferred(threads, times, a),
        is_preferred(threads, times, b),
    ensures
        a == b,
{
}

/// How long a number of tokens that were computed at once took.
#[derive(Debug, Clone, Copy, PartialEq, Eq, Structural)]
pub struct PhysicalBatchBenchmarkSample {
    pub physical_batch_size: u32,
    pub elapsed: Elapsed,
}

/// The sizes of samples.
pub open spec fn sizes_of(samples: Seq<PhysicalBatchBenchmarkSample>) -> Seq<u32> {
    samples.map_values(|sample: PhysicalBatchBenchmarkSample| sample.physical_batch_size)
}

/// The times of samples.
pub open spec fn spans_of(samples: Seq<PhysicalBatchBenchmarkSample>) -> Seq<int> {
    samples.map_values(|sample: PhysicalBatchBenchmarkSample| sample.elapsed.spec_nanos())
}

/// The first position of the shortest time among the first `n`.
pub open spec fn first_fastest(times: Seq<int>, n: int) -> int
    decreases n,
{
    if n <= 1 {
        0
    } else {
        let earlier = first_fastest(times, n - 1);
        if times[n - 1] < times[earlier] {
            n - 1
        } else {
            earlier
        }
    }
}

/// The first position of the usual size from a position on.
pub open spec fn first_default(sizes: Seq<u32>, i: int) -> Option<int>
    decreases sizes.len() - i,
{
    if i >= sizes.len() {
        None
    } else if sizes[i] == DEFAULT_PHYSICAL_BATCH_SIZE {
        Some(i)
    } else {
        first_default(sizes, i + 1)
    }
}

/// Value of [`select_physical_batch_size`].
pub open spec fn spec_select_physical_batch_size(sizes: Seq<u32>, times: Seq<int>) -> u32 {
    match first_default(sizes, 0) {
        None => DEFAULT_PHYSICAL_BATCH_SIZE,
        Some(usual) => {
            let fastest = first_fastest(times, times.len() as int);
            if sizes[fastest] != DEFAULT_PHYSICAL_BATCH_SIZE && times[fastest] * 100 <= times[usual]
                * (100 - PHYSICAL_BATCH_MINIMUM_GAIN_PERCENT) {
                sizes[fastest]
            } else {
                DEFAULT_PHYSICAL_BATCH_SIZE
            }
        },
    }
}

/// The size of the fastest sample where it gains enough on the usual size, else the usual size.
pub fn select_physical_batch_size(samples: &[PhysicalBatchBenchmarkSample]) -> (r: u32)
    ensures
        r == spec_select_physical_batch_size(sizes_of(samples@), spans_of(samples@)),
{
    let ghost sizes = sizes_of(samples@);
    let ghost times = spans_of(samples@);
    let total: usize = samples.len();
    let mut usual: usize = 0;
    while usual < total && samples[usual].physical_batch_size != DEFAULT_PHYSICAL_BATCH_SIZE
        invariant
            usual <= total == samples@.len(),
            sizes == sizes_of(samples@),
            first_default(sizes, 0) == first_default(sizes, usual as int),
        decreases total - usual,
    {
        usual = usual + 1;
    }
    if usual == total {
        return DEFAULT_PHYSICAL_BATCH_SIZE;
    }
    let mut fastest: usize = 0;
    let mut i: usize = 1;
    while i < total
        invariant
            1 <= i <= total == samples@.len(),
            times == spans_of(samples@),
            fastest < i,
            fastest == first_fastest(times, i as int),
        decreases total - i,
    {
        if samples[i].elapsed.nanos() < samples[fastest].elapsed.nanos() {
            fastest = i;
        }
        i = i + 1;
    }
    let usual_nanos: u128 = samples[usual].elapsed.nanos();
    let fastest_nanos: u128 = samples[fastest].elapsed.nanos();
    let required: u128 = 100 - PHYSICAL_BATCH_MINIMUM_GAIN_PERCENT;
    assert(usual_nanos * required <= MAX_NANOS * 100) by (nonlinear_arith)
        requires
            usual_nanos <= MAX_NANOS,
            required <= 100,
    ;
    if samples[fastest].physical_batch_size != DEFAULT_PHYSICAL_BATCH_SIZE && fastest_nanos * 100
        <= usual_nanos * required {
        samples[fastest].physical_batch_size
    } else {
        DEFAULT_PHYSICAL_BATCH_SIZE
    }
}

/// The first of the shortest times is among the times.
proof fn first_fastest_is_within(times: Seq<int>, n: int)
    requires
        1 <= n <= times.len(),
    ensures
        0 <= first_fastest(times, n) < n,
    decreases n,
{
    if n > 1 {
        first_fastest_is_within(times, n - 1);
    }
}

/// The size that is selected is the usual one or one of those that were measured.
pub proof fn selected_size_was_measured(sizes: Seq<u32>, times: Seq<int>)
    requires
        sizes.len() == times.len(),
    ensures
        ({
            let size = spec_select_physical_batch_size(sizes, times);
            size == DEFAULT_PHYSICAL_BATCH_SIZE || sizes.contains(size)
        }),
{
    if sizes.len() > 0 {
        first_fastest_is_within(times, times.len() as int);
        assert(sizes.contains(sizes[first_fastest(times, times.len() as int)]));
    }
}

/// Value of [`select_quality_preserving_physical_batch_size`].
pub open spec fn spec_select_quality_preserving(speed_candidate: u32, quality_matches: bool) -> u32 {
    if speed_candidate != DEFAULT_PHYSICAL_BATCH_SIZE && quality_matches {
        speed_candidate
    } else {
        DEFAULT_PHYSICAL_BATCH_SIZE
    }
}

/// The faster size where it does not change what the model writes, else the usual size.
pub fn select_quality_preserving_physical_batch_size(
    speed_candidate: u32,
    quality_matches: bool,
) -> (r: u32)
    ensures
        r == spec_select_quality_preserving(speed_candidate, quality_matches),
{
    if speed_candidate != DEFAULT_PHYSICAL_BATCH_SIZE && quality_matches {
        speed_candidate
    } else {
        DEFAULT_PHYSICAL_BATCH_SIZE
    }
}

/// The condition of [`valid_runtime_configuration`].
pub open spec fn spec_valid_runtime_configuration(
    configuration: RuntimeInferenceConfig,
    available_threads: int,
) -> bool {
    let maximum = usable_threads(available_threads);
    &&& 1 <= configuration.threads.generation <= maximum
    &&& 1 <= configuration.threads.batch <= maximum
    &&& configuration.batch_sizes.logical == DEFAULT_LOGICAL_BATCH_SIZE
    &&& PHYSICAL_BATCH_SIZE_CANDIDATES@.contains(configuration.batch_sizes.physical)
    &&& configuration.batch_sizes.physical <= configuration.batch_sizes.logical
}

/// Whether the size is one that may be measured.
fn is_physical_batch_size(size: u32) -> (r: bool)
    ensures
        r == PHYSICAL_BATCH_SIZE_CANDIDATES@.contains(size),
{
    let ghost sizes = PHYSICAL_BATCH_SIZE_CANDIDATES@;
    assert(sizes[0] == 128 && sizes[1] == 256 && sizes[2] == 512);
    size == 128 || size == 256 || size == 512
}

/// Whether the settings can be those of a machine with so many threads.
pub fn valid_runtime_configuration(
    configuration: RuntimeInferenceConfig,
    available_threads: usize,
) -> (r: bool)
    ensures
        r == spec_valid_runtime_configuration(configuration, available_threads as int),
{
    let maximum: u32 = usable(available_threads);
    let threads: RuntimeThreadCounts = configuration.threads;
    1 <= threads.generation && threads.generation <= maximum && 1 <= threads.batch
        && threads.batch <= maximum && configuration.batch_sizes.logical
        == DEFAULT_LOGICAL_BATCH_SIZE && is_physical_batch_size(
        configuration.batch_sizes.physical,
    ) && configuration.batch_sizes.physical <= configuration.batch_sizes.logical
}

/// Settings by rule are valid on every machine.
pub proof fn automatic_settings_are_valid(available_threads: int)
    ensures
        spec_valid_runtime_configuration(
            spec_runtime_config_for_threads(spec_automatic_runtime_thread_counts(available_threads)),
            available_threads,
        ),
{
    assert(PHYSICAL_BATCH_SIZE_CANDIDATES@[2] == DEFAULT_PHYSICAL_BATCH_SIZE);
}

/// What of the machine and of the model's file settings were measured for.
#[derive(Debug)]
pub struct TuningSubject {
    pub processor: String,
    pub instruction_profile: String,
    pub engine: String,
    pub model_bytes: u64,
    pub modified_nanos: u128,
}

/// The decimal notation of a wide number.
fn decimal_wide(n: u128) -> (r: String)
    ensures
        r@ == text::spec_decimal(n as nat),
    decreases n,
{
    if n <= u64::MAX as u128 {
        text::decimal(n as u64)
    } else {
        let mut out: String = decimal_wide(n / 10);
        out.push(((n % 10) as u8 + 48) as char);
        out
    }
}

/// The name under which measured settings are kept.
pub open spec fn spec_thread_tuning_key(
    subject: TuningSubject,
    model_id: Seq<char>,
    runtime_id: Seq<char>,
    threads: Seq<char>,
    available_threads: int,
) -> Seq<char> {
    "contract="@ + text::spec_decimal(THREAD_TUNING_CONTRACT_VERSION as nat) + "|cpu="@
        + subject.processor@ + "|instructions="@ + subject.instruction_profile@ + "|engine="@
        + subject.engine@ + "|available="@ + text::spec_decimal_of(available_threads) + "|model="@
        + model_id + "|size="@ + text::spec_decimal(subject.model_bytes as nat) + "|modified="@
        + text::spec_decimal(subject.modified_nanos as nat) + "|runtime="@ + runtime_id
        + "|threads="@ + threads
}

/// The name under which settings for the model on the runtime are kept on this machine.
pub fn thread_tuning_key(
    subject: &TuningSubject,
    model: &ModelDefinition,
    runtime: &RuntimeDefinition,
    available_threads: usize,
) -> (r: String)
    ensures
        r@ == spec_thread_tuning_key(
            *subject,
            model@.id,
            runtime@.id,
            runtime@.threads,
            available_threads as int,
        ),
{
    let version: String = text::decimal(THREAD_TUNING_CONTRACT_VERSION as u64);
    let machine: String = text::concat5(
        "contract=",
        &version,
        "|cpu=",
        &subject.processor,
        "|instructions=",
    );
    let engine: String = text::concat5(
        &machine,
        &subject.instruction_profile,
        "|engine=",
        &subject.engine,
        "|available=",
    );
    let name: String = text::concat5(
        &engine,
        &text::decimal_of(available_threads),
        "|model=",
        &model.id,
        "|size=",
    );
    let file: String = text::concat5(
        &name,
        &text::decimal(subject.model_bytes),
        "|modified=",
        &decimal_wide(subject.modified_nanos),
        "|runtime=",
    );
    text::concat4(&file, &runtime.id, "|threads=", &runtime.threads)
}

/// The name of the file of the record under a key.
pub fn record_file_name(key: &str) -> (r: String)
    ensures
        r@ == digest::spec_encode_hex(digest::sha256(vstd::utf8::encode_utf8(key@))) + ".json"@,
{
    text::concat2(&digest::sha256_hex(key.as_bytes()), ".json")
}

/// What instructions a processor has.
#[derive(Debug, Clone, Copy, PartialEq, Eq, Structural)]
pub struct CpuInstructionCapabilities {
    pub sse42: bool,
    pub avx2: bool,
    pub fma: bool,
    pub f16c: bool,
    pub bmi2: bool,
    pub avx512f: bool,
    pub avx512cd: bool,
    pub avx512bw: bool,
    pub avx512dq: bool,
    pub avx512vl: bool,
}

/// No instructions.
pub open spec fn no_instructions() -> CpuInstructionCapabilities {
    CpuInstructionCapabilities {
        sse42: false,
        avx2: false,
        fma: false,
        f16c: false,
        bmi2: false,
        avx512f: false,
        avx512cd: false,
        avx512bw: false,
        avx512dq: false,
        avx512vl: false,
    }
}

impl Default for CpuInstructionCapabilities {
    /// A processor without any of the instructions.
    fn default() -> (r: Self)
        ensures
            r == no_instructions(),
    {
        CpuInstructionCapabilities {
            sse42: false,
            avx2: false,
            fma: false,
            f16c: false,
            bmi2: false,
            avx512f: false,
            avx512cd: false,
            avx512bw: false,
            avx512dq: false,
            avx512vl: false,
        }
    }
}

/// The processor runs what is built for AVX2.
pub open spec fn has_avx2_profile(c: CpuInstructionCapabilities) -> bool {
    c.sse42 && c.avx2 && c.fma && c.f16c && c.bmi2
}

/// The processor runs what is built for AVX-512.
pub open spec fn has_avx512_profile(c: CpuInstructionCapabilities) -> bool {
    has_avx2_profile(c) && c.avx512f && c.avx512cd && c.avx512bw && c.avx512dq && c.avx512vl
}

/// The name of the widest profile that the processor has.
pub fn cpu_instruction_profile(capabilities: CpuInstructionCapabilities) -> (r: &'static str)
    ensures
        r@ == (if has_avx512_profile(capabilities) {
            "avx512-core"@
        } else if has_avx2_profile(capabilities) {
            "avx2-fma-f16c-bmi2"@
        } else if capabilities.sse42 {
            "sse4.2"@
        } else {
            "unsupported"@
        }),
{
    let avx2: bool = capabilities.sse42 && capabilities.avx2 && capabilities.fma
        && capabilities.f16c && capabilities.bmi2;
    if avx2 && capabilities.avx512f && capabilities.avx512cd && capabilities.avx512bw
        && capabilities.avx512dq && capabilities.avx512vl {
        "avx512-core"
    } else if avx2 {
        "avx2-fma-f16c-bmi2"
    } else if capabilities.sse42 {
        "sse4.2"
    } else {
        "unsupported"
    }
}

/// Settings that were measured, as they are kept in a file.
#[derive(Debug)]
pub struct PersistedThreadTuning {
    pub schema_version: u32,
    pub key: String,
    pub configuration: RuntimeInferenceConfig,
}

/// Contents of a [`PersistedThreadTuning`].
pub struct RecordView {
    pub schema_version: u32,
    pub key: Seq<char>,
    pub configuration: RuntimeInferenceConfig,
}

impl View for PersistedThreadTuning {
    type V = RecordView;

    open spec fn view(&self) -> RecordView {
        RecordView {
            schema_version: self.schema_version,
            key: self.key@,
            configuration: self.configuration,
        }
    }
}

/// The contents of a record, where there is one.
pub open spec fn view_record(record: Option<PersistedThreadTuning>) -> Option<RecordView> {
    match record {
        Some(record) => Some(record@),
        None => None,
    }
}

/// The record holds settings for the key that this machine can have.
pub open spec fn is_acceptable(
    record: RecordView,
    key: Seq<char>,
    available_threads: int,
) -> bool {
    &&& record.schema_version == THREAD_TUNING_SCHEMA_VERSION
    &&& record.key == key
    &&& spec_valid_runtime_configuration(record.configuration, available_threads)
}

/// The record of settings that were measured.
pub open spec fn record_of(key: Seq<char>, configuration: RuntimeInferenceConfig) -> RecordView {
    RecordView { schema_version: THREAD_TUNING_SCHEMA_VERSION, key, configuration }
}

/// The record that is written for settings that were measured: none where the file of the key is
/// there already, which keeps what it holds.
pub fn record_to_write(
    key: &str,
    configuration: RuntimeInferenceConfig,
    file_is_there: bool,
) -> (r: Option<PersistedThreadTuning>)
    ensures
        view_record(r) == (if file_is_there {
            None
        } else {
            Some(record_of(key@, configuration))
        }),
        forall|file: Option<RecordView>|
            (file is Some) == file_is_there ==> #[trigger] file_after_storing(
                file,
                key@,
                configuration,
            ) == (if r is Some {
                view_record(r)
            } else {
                file
            }),
{
    if file_is_there {
        None
    } else {
        Some(
            PersistedThreadTuning {
                schema_version: THREAD_TUNING_SCHEMA_VERSION,
                key: key.to_owned(),
                configuration,
            },
        )
    }
}

/// What the file of a key holds after settings were stored under it, by what it held before.
pub open spec fn file_after_storing(
    file: Option<RecordView>,
    key: Seq<char>,
    configuration: RuntimeInferenceConfig,
) -> Option<RecordView> {
    match file {
        Some(record) => Some(record),
        None => Some(record_of(key, configuration)),
    }
}

/// Contents of a [`TuningMemory`]: the settings that were read, and the keys of those that were
/// measured since the application was started.
pub struct MemoryView {
    pub known: Map<Seq<char>, RuntimeInferenceConfig>,
    pub pending: Set<Seq<char>>,
}

/// A memory that knows nothing.
pub open spec fn empty_memory() -> MemoryView {
    MemoryView { known: Map::empty(), pending: Set::empty() }
}

/// The memory after the settings under a key were asked for, and those settings, by what the file
/// of the key holds.
pub open spec fn loaded(
    memory: MemoryView,
    key: Seq<char>,
    file: Option<RecordView>,
    available_threads: int,
) -> (MemoryView, Option<RuntimeInferenceConfig>) {
    if memory.known.contains_key(key) {
        (memory, Some(memory.known[key]))
    } else {
        match file {
            Some(record) => if is_acceptable(record, key, available_threads) {
                (
                    MemoryView { known: memory.known.insert(key, record.configuration), ..memory },
                    Some(record.configuration),
                )
            } else {
                (memory, None)
            },
            None => (memory, None),
        }
    }
}

/// The memory after settings under a key were measured.
pub open spec fn noted(memory: MemoryView, key: Seq<char>) -> MemoryView {
    MemoryView { pending: memory.pending.insert(key), ..memory }
}

/// What is known of measured settings while the application runs.
#[derive(Debug)]
pub struct TuningMemory {
    known: TextMap<RuntimeInferenceConfig>,
    pending: TextMap<()>,
}

impl Default for TuningMemory {
    /// Nothing is known at first.
    fn default() -> (r: Self)
        ensures
            r.spec_memory() == empty_memory(),
    {
        let memory = TuningMemory { known: TextMap::new(), pending: TextMap::new() };
        assert(memory.pending() =~= Set::empty());
        memory
    }
}

impl TuningMemory {
    /// The settings that were read, by key.
    pub closed spec fn known(&self) -> Map<Seq<char>, RuntimeInferenceConfig> {
        self.known@
    }

    /// The keys of the settings that were measured since the application was started.
    pub closed spec fn pending(&self) -> Set<Seq<char>> {
        self.pending@.dom()
    }

    /// What is known.
    pub open spec fn spec_memory(&self) -> MemoryView {
        MemoryView { known: self.known(), pending: self.pending() }
    }

    /// The settings under the key, where they were read.
    pub fn get(&self, key: &str) -> (r: Option<RuntimeInferenceConfig>)
        ensures
            r == (if self.known().contains_key(key@) {
                Some(self.known()[key@])
            } else {
                None
            }),
    {
        match self.known.get(key) {
            Some(configuration) => Some(*configuration),
            None => None,
        }
    }

    /// The settings under the key: those that are known, else those that the record in its file
    /// holds, where it is acceptable. They are remembered. A record that is not acceptable is to be
    /// removed.
    pub fn load(
        &mut self,
        key: &str,
        file: &Option<PersistedThreadTuning>,
        available_threads: usize,
    ) -> (r: Option<RuntimeInferenceConfig>)
        ensures
            (final(self).spec_memory(), r) == loaded(
                old(self).spec_memory(),
                key@,
                view_record(*file),
                available_threads as int,
            ),
    {
        match self.get(key) {
            Some(configuration) => {
                return Some(configuration);
            },
            None => {},
        }
        match file {
            Some(record) => {
                if record.schema_version != THREAD_TUNING_SCHEMA_VERSION || !text::same(
                    &record.key,
                    key,
                ) || !valid_runtime_configuration(record.configuration, available_threads) {
                    return None;
                }
                let replaced: Option<RuntimeInferenceConfig> = self.known.insert(
                    key.to_owned(),
                    record.configuration,
                );
                Some(record.configuration)
            },
            None => None,
        }
    }

    /// Whether the settings under the key were measured since the application was started.
    pub fn is_pending_next_launch(&self, key: &str) -> (r: bool)
        ensures
            r == self.pending().contains(key@),
    {
        self.pending.contains_key(key)
    }

    /// Notes that the settings under the key were measured.
    pub fn mark_pending(&mut self, key: &str)
        ensures
            final(self).spec_memory() == noted(old(self).spec_memory(), key@),
    {
        let replaced: Option<()> = self.pending.insert(key.to_owned(), ());
        assert(self.pending() =~= old(self).pending().insert(key@));
    }

    /// Forgets the settings under the key.
    pub fn forget(&mut self, key: &str)
        ensures
            final(self).known() == old(self).known().remove(key@),
            final(self).pending() == old(self).pending().remove(key@),
    {
        let configuration: Option<RuntimeInferenceConfig> = self.known.remove(key);
        let noted: Option<()> = self.pending.remove(key);
        assert(self.pending() =~= old(self).pending().remove(key@));
    }
}

/// A record of settings that are valid on a machine is accepted there under its key, and under no
/// other key.
pub proof fn records_are_read_back(
    key: Seq<char>,
    configuration: RuntimeInferenceConfig,
    available_threads: int,
    other: Seq<char>,
)
    requires
        spec_valid_runtime_configuration(configuration, available_threads),
    ensures
        is_acceptable(record_of(key, configuration), key, available_threads),
        is_acceptable(record_of(key, configuration), other, available_threads) ==> other == key,
{
}

/// The first settings that are stored under a key stay: a later store does not overwrite them.
/// They are found under their key, at once and after a restart, and under no other key, though the
/// same file stood for it. Until the restart, and not after it, they count as measured since the
/// start.
pub proof fn first_settings_stay(
    memory: MemoryView,
    key: Seq<char>,
    other: Seq<char>,
    first: RuntimeInferenceConfig,
    second: RuntimeInferenceConfig,
    available_threads: int,
)
    requires
        spec_valid_runtime_configuration(first, available_threads),
        !memory.known.contains_key(key),
        !memory.known.contains_key(other),
        other != key,
    ensures
        ({
            let file = file_after_storing(file_after_storing(None, key, first), key, second);
            let stored = noted(noted(memory, key), key);
            &&& file == Some(record_of(key, first))
            &&& loaded(stored, key, file, available_threads).1 == Some(first)
            &&& loaded(stored, other, None, available_threads).1 is None
            &&& loaded(stored, other, file, available_threads).1 is None
            &&& stored.pending.contains(key)
            &&& loaded(empty_memory(), key, file, available_threads).1 == Some(first)
            &&& !empty_memory().pending.contains(key)
        }),
{
}

/// Settings that were found are found again, whatever becomes of their file.
pub proof fn found_settings_are_remembered(
    memory: MemoryView,
    key: Seq<char>,
    file: Option<RecordView>,
    later: Option<RecordView>,
    available_threads: int,
)
    requires
        loaded(memory, key, file, available_threads).1 is Some,
    ensures
        ({
            let (remembered, found) = loaded(memory, key, file, available_threads);
            loaded(remembered, key, later, available_threads) == (remembered, found)
        }),
{
}

/// Whether measured settings are asked for: not where the threads are set by hand or configured.
pub fn uses_measured_settings(
    manual: Option<RuntimeThreadCounts>,
    runtime: &RuntimeDefinition,
) -> (r: bool)
    ensures
        r == (manual is None && spec_is_automatic(runtime@.threads)),
{
    manual.is_none() && is_automatic(runtime)
}

/// Whether settings are to be measured now.
pub fn should_tune(
    manual: Option<RuntimeThreadCounts>,
    runtime: &RuntimeDefinition,
    pending: bool,
    stored: Option<RuntimeInferenceConfig>,
) -> (r: bool)
    ensures
        r == (manual is None && spec_is_automatic(runtime@.threads) && !pending && stored is None),
{
    uses_measured_settings(manual, runtime) && !pending && stored.is_none()
}

/// Whether settings are missing that were to be measured.
pub fn tuning_is_required(
    manual: Option<RuntimeThreadCounts>,
    runtime: &RuntimeDefinition,
    stored: Option<RuntimeInferenceConfig>,
) -> (r: bool)
    ensures
        r == (manual is None && spec_is_automatic(runtime@.threads) && stored is None),
{
    uses_measured_settings(manual, runtime) && stored.is_none()
}

/// Value of [`resolve_configuration`].
pub open spec fn spec_resolve_configuration(
    manual: Option<RuntimeThreadCounts>,
    id: Seq<char>,
    threads: Seq<char>,
    available_threads: int,
    stored: Option<RuntimeInferenceConfig>,
) -> Result<RuntimeInferenceConfig, error::ErrorView> {
    if let Some(counts) = manual {
        Ok(spec_runtime_config_for_threads(counts))
    } else if spec_is_automatic(threads) && stored is Some {
        Ok(stored->0)
    } else {
        match spec_parse_runtime_threads(id, threads, available_threads) {
            Ok(counts) => Ok(spec_runtime_config_for_threads(counts)),
            Err(error) => Err(error),
        }
    }
}

/// The settings of the runtime: those that were set by hand, else those that are configured, else
/// those that were measured, else those by rule.
pub fn resolve_configuration(
    manual: Option<RuntimeThreadCounts>,
    runtime: &RuntimeDefinition,
    available_threads: usize,
    stored: Option<RuntimeInferenceConfig>,
) -> (r: Result<RuntimeInferenceConfig, CompressionError>)
    ensures
        error::outcome(r) == spec_resolve_configuration(
            manual,
            runtime@.id,
            runtime@.threads,
            available_threads as int,
            stored,
        ),
{
    match manual {
        Some(counts) => {
            return Ok(runtime_config_for_threads(counts));
        },
        None => {},
    }
    if is_automatic(runtime) {
        match stored {
            Some(configuration) => {
                return Ok(configuration);
            },
            None => {},
        }
    }
    match parse_runtime_threads(runtime, available_threads) {
        Ok(counts) => Ok(runtime_config_for_threads(counts)),
        Err(error) => Err(error),
    }
}

/// The threads of a profile, and how they were chosen.
#[derive(Debug, Clone, PartialEq, Eq)]
pub struct ProfileThreadStatus {
    pub mode: String,
    pub generation_threads: u32,
    pub batch_threads: u32,
    pub logical_batch_size: u32,
    pub physical_batch_size: u32,
    pub available_threads: u32,
}

/// The threads of a profile that runs with the settings.
pub fn thread_status(
    manual: Option<RuntimeThreadCounts>,
    runtime: &RuntimeDefinition,
    configuration: RuntimeInferenceConfig,
    available_threads: usize,
) -> (r: ProfileThreadStatus)
    ensures
        r.mode@ == (if manual is Some {
            "manual"@
        } else if spec_is_automatic(runtime@.threads) {
            "auto"@
        } else {
            "configured"@
        }),
        r.generation_threads == configuration.threads.generation,
        r.batch_threads == configuration.threads.batch,
        r.logical_batch_size == configuration.batch_sizes.logical,
        r.physical_batch_size == configuration.batch_sizes.physical,
        r.available_threads == manual_maximum(available_threads as int),
{
    let mode: &str = if manual.is_some() {
        "manual"
    } else if is_automatic(runtime) {
        "auto"
    } else {
        "configured"
    };
    let available: u32 = if available_threads < 1 {
        1
    } else if available_threads as u64 > u32::MAX as u64 {
        u32::MAX
    } else {
        available_threads as u32
    };
    ProfileThreadStatus {
        mode: mode.to_owned(),
        generation_threads: configuration.threads.generation,
        batch_threads: configuration.threads.batch,
        logical_batch_size: configuration.batch_sizes.logical,
        physical_batch_size: configuration.batch_sizes.physical,
        available_threads: available,
    }
}

/// Of the threads of a machine one is left to others, and at most eight are used. From seven on,
/// one fewer generates.
pub proof fn automatic_threads_leave_one_free(available_threads: int)
    ensures
        available_threads <= 2 ==> spec_automatic_runtime_thread_counts(available_threads)
            == (RuntimeThreadCounts { generation: 1, batch: 1 }),
        2 <= available_threads <= 7 ==> spec_automatic_runtime_thread_counts(available_threads)
            == (RuntimeThreadCounts {
            generation: (available_threads - 1) as u32,
            batch: (available_threads - 1) as u32,
        }),
        available_threads == 8 ==> spec_automatic_runtime_thread_counts(available_threads) == (
        RuntimeThreadCounts { generation: 6, batch: 7 }),
        available_threads >= 9 ==> spec_automatic_runtime_thread_counts(available_threads) == (
        RuntimeThreadCounts { generation: 7, batch: 8 }),
{
}

/// A configured number of threads is used for both purposes. The word `auto` in any case leaves
/// the number to the machine, and no thread at all is an error.
pub proof fn configured_threads_are_used(id: Seq<char>, count: nat, available_threads: int)
    requires
        count <= u32::MAX,
    ensures
        count > 0 ==> spec_parse_runtime_threads(id, text::spec_decimal(count), available_threads)
            == Ok::<RuntimeThreadCounts, error::ErrorView>(
            RuntimeThreadCounts { generation: count as u32, batch: count as u32 },
        ),
        spec_parse_runtime_threads(id, text::spec_decimal(0), available_threads) is Err,
        forall|threads: Seq<char>|
            text::spec_same_ignoring_case(threads, "auto"@)
                ==> #[trigger] spec_parse_runtime_threads(id, threads, available_threads) == Ok::<
                RuntimeThreadCounts,
                error::ErrorView,
            >(spec_automatic_runtime_thread_counts(available_threads)),
{
    integers::numbers_are_read_back(count, u32::MAX as int);
    integers::numbers_are_read_back(0, u32::MAX as int);
    numbers_are_not_automatic(count);
    numbers_are_not_automatic(0);
}

/// A number is not the word for leaving it open.
proof fn numbers_are_not_automatic(count: nat)
    ensures
        !spec_is_automatic(text::spec_decimal(count)),
{
    reveal_strlit("auto");
    integers::numbers_are_read_back(count, count as int);
    let written = text::spec_decimal(count);
    if spec_is_automatic(written) {
        assert(text::spec_lowercase(written)[0] == text::spec_lowercase("auto"@)[0]);
        assert(text::spec_lowercase("auto"@)[0] == 'a');
        assert(text::spec_lowercase(written)[0] == text::spec_lower_char(written[0]));
    }
}

/// Threads that are set by hand are used as they are given where they lie from one to those that
/// the machine has, and are an error otherwise. They count where the mode is `manual`, and only
/// there.
pub proof fn threads_set_by_hand_are_used(
    mode: Option<Seq<char>>,
    generation: nat,
    batch: nat,
    available_threads: int,
)
    requires
        1 <= available_threads <= u32::MAX,
        generation <= u32::MAX,
        batch <= u32::MAX,
    ensures
        ({
            let counts = spec_manual_runtime_thread_counts(
                mode,
                Some(text::spec_decimal(generation)),
                Some(text::spec_decimal(batch)),
                available_threads,
            );
            if mode != Some("manual"@) {
                counts == Ok::<Option<RuntimeThreadCounts>, error::ErrorView>(None)
            } else if 1 <= generation <= available_threads && 1 <= batch <= available_threads {
                counts == Ok::<Option<RuntimeThreadCounts>, error::ErrorView>(
                    Some(
                        RuntimeThreadCounts { generation: generation as u32, batch: batch as u32 },
                    ),
                )
            } else {
                counts is Err
            }
        }),
        mode == Some("manual"@) ==> spec_manual_runtime_thread_counts(
            mode,
            None,
            Some(text::spec_decimal(batch)),
            available_threads,
        ) is Err && spec_manual_runtime_thread_counts(
            mode,
            Some(text::spec_decimal(generation)),
            None,
            available_threads,
        ) is Err,
{
    integers::numbers_are_read_back(generation, u32::MAX as int);
    integers::numbers_are_read_back(batch, u32::MAX as int);
}

/// Threads that are set by hand come before measured settings, and these before the automatic
/// ones. A configured number of threads comes before measured settings too. Nothing but measured
/// settings changes the sizes of batches, which are 512.
pub proof fn settings_are_resolved_in_order(
    manual: Option<RuntimeThreadCounts>,
    id: Seq<char>,
    threads: Seq<char>,
    available_threads: int,
    stored: Option<RuntimeInferenceConfig>,
)
    ensures
        ({
            let resolved = spec_resolve_configuration(
                manual,
                id,
                threads,
                available_threads,
                stored,
            );
            let automatic = text::spec_same_ignoring_case(threads, "auto"@);
            &&& manual matches Some(counts) ==> (resolved matches Ok(settings) && settings.threads
                == counts)
            &&& manual is None && automatic && stored is Some ==> resolved == Ok::<
                RuntimeInferenceConfig,
                error::ErrorView,
            >(stored->0)
            &&& manual is None && automatic && stored is None ==> (resolved matches Ok(settings)
                && settings.threads == spec_automatic_runtime_thread_counts(available_threads))
            &&& manual is None && !automatic ==> match spec_parse_runtime_threads(
                id,
                threads,
                available_threads,
            ) {
                Ok(counts) => resolved matches Ok(settings) && settings.threads == counts,
                Err(error) => resolved == Err::<RuntimeInferenceConfig, error::ErrorView>(error),
            }
            &&& !(manual is None && automatic && stored is Some) ==> (resolved matches Ok(settings)
                ==> settings.batch_sizes.logical == 512 && settings.batch_sizes.physical == 512)
        }),
{
}

/// Settings are valid where they use a thread at least and no more than the machine leaves, take
/// 512 tokens at once, and compute 128, 256 or 512 of them at once; only there.
pub proof fn valid_settings(configuration: RuntimeInferenceConfig, available_threads: int)
    ensures
        spec_valid_runtime_configuration(configuration, available_threads) <==> {
            let most = spec_automatic_runtime_thread_counts(available_threads).batch;
            let physical = configuration.batch_sizes.physical;
            &&& 1 <= configuration.threads.generation <= most
            &&& 1 <= configuration.threads.batch <= most
            &&& configuration.batch_sizes.logical == 512
            &&& physical == 128 || physical == 256 || physical == 512
        },
{
    let sizes = PHYSICAL_BATCH_SIZE_CANDIDATES@;
    assert(sizes.len() == 3);
    assert(sizes[0] == 128 && sizes[1] == 256 && sizes[2] == 512);
    let physical = configuration.batch_sizes.physical;
    if sizes.contains(physical) {
        let k = choose|k: int| 0 <= k < sizes.len() && sizes[k] == physical;
    }
}

/// The first of the fastest is as fast as any.
proof fn first_fastest_is_fastest(times: Seq<int>, n: int, k: int)
    requires
        0 <= k < n <= times.len(),
    ensures
        0 <= first_fastest(times, n) < n,
        times[first_fastest(times, n)] <= times[k],
    decreases n,
{
    if n > 1 {
        if k < n - 1 {
            first_fastest_is_fastest(times, n - 1, k);
        } else {
            first_fastest_is_fastest(times, n - 1, 0);
        }
    }
}

/// The usual size is found where it was measured.
proof fn usual_size_is_found(sizes: Seq<u32>, i: int, k: int)
    requires
        0 <= i <= k < sizes.len(),
        sizes[k] == 512,
        forall|j: int| i <= j < k ==> #[trigger] sizes[j] != 512,
    ensures
        first_default(sizes, i) == Some(k),
    decreases k - i,
{
    if i < k {
        assert(sizes[i] != 512);
        usual_size_is_found(sizes, i + 1, k);
    }
}

/// A size is selected other than 512 where it is at least as fast as all others and three percent
/// faster than 512; only there. Where 512 was not measured it is selected.
pub proof fn faster_sizes_are_selected(sizes: Seq<u32>, times: Seq<int>, usual: int)
    requires
        sizes.len() == times.len(),
        0 <= usual < sizes.len(),
        sizes[usual] == 512,
        forall|j: int| 0 <= j < usual ==> #[trigger] sizes[j] != 512,
    ensures
        spec_select_physical_batch_size(sizes, times) != 512 ==> exists|k: int|
            0 <= k < sizes.len() && #[trigger] sizes[k] == spec_select_physical_batch_size(
                sizes,
                times,
            ) && times[k] * 100 <= times[usual] * 97 && forall|j: int|
                0 <= j < times.len() ==> times[k] <= #[trigger] times[j],
        (exists|k: int|
            0 <= k < sizes.len() && #[trigger] sizes[k] != 512 && times[k] * 100 <= times[usual] * 97
                && forall|j: int|
                0 <= j < times.len() && j != k ==> times[k] < #[trigger] times[j])
            ==> spec_select_physical_batch_size(sizes, times) != 512,
{
    usual_size_is_found(sizes, 0, usual);
    let n = times.len() as int;
    let fastest = first_fastest(times, n);
    first_fastest_is_fastest(times, n, 0);
    assert forall|j: int| 0 <= j < times.len() implies times[fastest] <= #[trigger] times[j] by {
        first_fastest_is_fastest(times, n, j);
    }
    assert(sizes[fastest] == sizes[fastest]);
    if exists|k: int|
        0 <= k < sizes.len() && #[trigger] sizes[k] != 512 && times[k] * 100 <= times[usual] * 97
            && forall|j: int| 0 <= j < times.len() && j != k ==> times[k] < #[trigger] times[j] {
        let k = choose|k: int|
            0 <= k < sizes.len() && #[trigger] sizes[k] != 512 && times[k] * 100 <= times[usual] * 97
                && forall|j: int|
                0 <= j < times.len() && j != k ==> times[k] < #[trigger] times[j];
        assert(times[fastest] <= times[k]);
        assert(fastest == k);
    }
}

/// Measured settings are kept apart by the machine, the engine, the model and its file, the runtime
/// and its threads: the name under which they are kept tells each of these.
pub proof fn tuning_keys_tell_the_subject(
    subject: TuningSubject,
    model_id: Seq<char>,
    runtime_id: Seq<char>,
    threads: Seq<char>,
    available_threads: int,
)
    ensures
        ({
            let key = spec_thread_tuning_key(
                subject,
                model_id,
                runtime_id,
                threads,
                available_threads,
            );
            &&& text::spec_contains(key, "|cpu="@ + subject.processor@)
            &&& text::spec_contains(key, "|instructions="@ + subject.instruction_profile@)
            &&& text::spec_contains(key, "|engine="@ + subject.engine@)
            &&& text::spec_contains(key, "|available="@ + text::spec_decimal_of(available_threads))
            &&& text::spec_contains(key, "|model="@ + model_id)
            &&& text::spec_contains(
                key,
                "|size="@ + text::spec_decimal(subject.model_bytes as nat),
            )
            &&& text::spec_contains(
                key,
                "|modified="@ + text::spec_decimal(subject.modified_nanos as nat),
            )
            &&& text::spec_contains(key, "|runtime="@ + runtime_id)
            &&& text::spec_ends_with(key, "|threads="@ + threads)
        }),
{
    let start = "contract="@ + text::spec_decimal(THREAD_TUNING_CONTRACT_VERSION as nat);
    let processor = start + "|cpu="@ + subject.processor@;
    let instructions = processor + "|instructions="@ + subject.instruction_profile@;
    let engine = instructions + "|engine="@ + subject.engine@;
    let available = engine + "|available="@ + text::spec_decimal_of(available_threads);
    let model = available + "|model="@ + model_id;
    let size = model + "|size="@ + text::spec_decimal(subject.model_bytes as nat);
    let modified = size + "|modified="@ + text::spec_decimal(subject.modified_nanos as nat);
    let runtime = modified + "|runtime="@ + runtime_id;
    more_is_told(start, "|cpu="@, subject.processor@);
    more_is_told(processor, "|instructions="@, subject.instruction_profile@);
    more_is_told(instructions, "|engine="@, subject.engine@);
    more_is_told(engine, "|available="@, text::spec_decimal_of(available_threads));
    more_is_told(available, "|model="@, model_id);
    more_is_told(model, "|size="@, text::spec_decimal(subject.model_bytes as nat));
    more_is_told(size, "|modified="@, text::spec_decimal(subject.modified_nanos as nat));
    more_is_told(modified, "|runtime="@, runtime_id);
    more_is_told(runtime, "|threads="@, threads);
}

/// A text that is made longer by a name and a value tells these at its end, and all that it told
/// before.
proof fn more_is_told(text: Seq<char>, name: Seq<char>, value: Seq<char>)
    ensures
        text::spec_contains(text + name + value, name + value),
        text::spec_ends_with(text + name + value, name + value),
        forall|told: Seq<char>| #[trigger]
            text::spec_contains(text, told) ==> text::spec_contains(text + name + value, told),
{
    let whole = text + name + value;
    let size = whole.len() as int;
    assert(whole.subrange(text.len() as int, size) =~= name + value);
    assert(text::occurs_at(whole, name + value, text.len() as int));
    assert forall|told: Seq<char>| #[trigger] text::spec_contains(text, told) implies
        text::spec_contains(whole, told) by {
        parts::held_by_the_whole(Seq::empty(), text, name + value, told);
        assert(Seq::<char>::empty() + text + (name + value) =~= whole);
    }
}

/// A faster size is kept where the answers stay the same, and gives way to 512 where they do not.
pub proof fn quality_decides_on_sizes(size: u32)
    ensures
        spec_select_quality_preserving(size, true) == size,
        spec_select_quality_preserving(size, false) == 512,
{
}

/// Measurements are unstable where one took more than a fifth longer than another. They do not
/// count as such where one took no time at all.
pub proof fn unstable_measurements(nanos: Seq<int>, i: int, j: int)
    requires
        0 <= i < nanos.len(),
        0 <= j < nanos.len(),
        forall|k: int| 0 <= k < nanos.len() ==> #[trigger] nanos[k] > 0,
    ensures
        5 * nanos[j] > 6 * nanos[i] ==> spec_measurements_are_unstable(nanos),
        !spec_measurements_are_unstable(nanos) ==> 5 * nanos[j] <= 6 * nanos[i],
{
}

} // verus!
