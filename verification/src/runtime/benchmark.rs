//! Measuring which settings run a model fastest: what is measured next, and what follows from it.
use vstd::prelude::*;
use crate::contents;
use crate::error;
use crate::error::CompressionError;
use crate::runtime::thread_tuning;
use crate::runtime::thread_tuning::{
    BenchmarkMeasure,
    DEFAULT_LOGICAL_BATCH_SIZE,
    DEFAULT_PHYSICAL_BATCH_SIZE,
    Elapsed,
    PHYSICAL_BATCH_SIZE_CANDIDATES,
    PhysicalBatchBenchmarkSample,
    RuntimeBatchSizes,
    RuntimeInferenceConfig,
    RuntimeThreadCounts,
    ThreadBenchmarkSample,
};
use crate::text;

verus! {

broadcast use crate::contents::group_contents;

/// The context in which settings are measured, in tokens.
pub const BENCHMARK_CONTEXT_LENGTH: u32 = 1024;

/// The tokens that are read before anything is measured.
pub const BENCHMARK_WARMUP_TOKENS: usize = 16;

/// The tokens that are read at once where threads are measured.
pub const BENCHMARK_BATCH_TOKENS: usize = 128;

/// The tokens that are read one by one where threads are measured.
pub const BENCHMARK_GENERATION_TOKENS: usize = 12;

/// The tokens that are read where sizes of batches are measured.
pub const BATCH_SIZE_BENCHMARK_TOKENS: usize = 512;

/// The context in which outputs are compared, in tokens.
pub const BATCH_SIZE_QUALITY_CONTEXT_LENGTH: u32 = 2048;

/// The tokens that are written where outputs are compared.
pub const BATCH_SIZE_QUALITY_MAX_PREDICTIONS: usize = 192;

/// How often every candidate is measured.
pub const BENCHMARK_INITIAL_ROUNDS: usize = 3;

/// How often a candidate is measured again where its measurements lie apart.
pub const BENCHMARK_UNSTABLE_EXTRA_ROUNDS: usize = 2;

/// The sentence that is read where threads are measured.
pub const THREAD_BENCHMARK_TEXT: &'static str = "TrimPromptのCPU推論速度を測定する固定文章です。入力評価と逐次生成の処理時間だけを比較します。";

/// How often that sentence is repeated.
pub const THREAD_BENCHMARK_REPEATS: usize = 20;

/// The sentence that is read where sizes of batches are measured.
pub const BATCH_SIZE_BENCHMARK_TEXT: &'static str = "TrimPromptの長文入力評価に適したマイクロバッチサイズを測定する固定文章です。モデルや生成条件は変更せず、CPUの計算単位だけを比較します。";

/// How often that sentence is repeated.
pub const BATCH_SIZE_BENCHMARK_REPEATS: usize = 80;

/// How a session of the runtime is set up.
#[derive(Debug, Clone, Copy, PartialEq, Eq, Structural)]
pub struct SessionParams {
    pub n_ctx: u32,
    pub n_batch: u32,
    pub n_ubatch: u32,
    pub n_threads: u32,
    pub n_threads_batch: u32,
}

/// The session in which the threads are measured.
pub fn benchmark_session_params(threads: RuntimeThreadCounts) -> (r: SessionParams)
    ensures
        r == (SessionParams {
            n_ctx: BENCHMARK_CONTEXT_LENGTH,
            n_batch: DEFAULT_LOGICAL_BATCH_SIZE,
            n_ubatch: DEFAULT_PHYSICAL_BATCH_SIZE,
            n_threads: threads.generation,
            n_threads_batch: threads.batch,
        }),
{
    benchmark_session_params_with_batch_size(threads, DEFAULT_PHYSICAL_BATCH_SIZE)
}

/// The session in which the size of batches is measured.
pub fn benchmark_session_params_with_batch_size(
    threads: RuntimeThreadCounts,
    physical_batch_size: u32,
) -> (r: SessionParams)
    ensures
        r == (SessionParams {
            n_ctx: BENCHMARK_CONTEXT_LENGTH,
            n_batch: DEFAULT_LOGICAL_BATCH_SIZE,
            n_ubatch: physical_batch_size,
            n_threads: threads.generation,
            n_threads_batch: threads.batch,
        }),
{
    SessionParams {
        n_ctx: BENCHMARK_CONTEXT_LENGTH,
        n_batch: DEFAULT_LOGICAL_BATCH_SIZE,
        n_ubatch: physical_batch_size,
        n_threads: threads.generation,
        n_threads_batch: threads.batch,
    }
}

/// The session in which outputs are compared.
pub fn quality_session_params(threads: RuntimeThreadCounts, physical_batch_size: u32) -> (r:
    SessionParams)
    ensures
        r == (SessionParams {
            n_ctx: BATCH_SIZE_QUALITY_CONTEXT_LENGTH,
            n_batch: DEFAULT_LOGICAL_BATCH_SIZE,
            n_ubatch: physical_batch_size,
            n_threads: threads.generation,
            n_threads_batch: threads.batch,
        }),
{
    SessionParams {
        n_ctx: BATCH_SIZE_QUALITY_CONTEXT_LENGTH,
        n_batch: DEFAULT_LOGICAL_BATCH_SIZE,
        n_ubatch: physical_batch_size,
        n_threads: threads.generation,
        n_threads_batch: threads.batch,
    }
}

/// Checks that there are enough tokens to measure threads with.
pub fn check_thread_benchmark_tokens(tokens: usize) -> (r: Result<(), CompressionError>)
    ensures
        match r {
            Ok(_) => tokens >= BENCHMARK_WARMUP_TOKENS + BENCHMARK_BATCH_TOKENS
                + BENCHMARK_GENERATION_TOKENS,
            Err(error) => tokens < BENCHMARK_WARMUP_TOKENS + BENCHMARK_BATCH_TOKENS
                + BENCHMARK_GENERATION_TOKENS && error@ == error::ErrorView::Runtime(
                "thread benchmark token sequence is too short"@,
            ),
        },
{
    if tokens < BENCHMARK_WARMUP_TOKENS + BENCHMARK_BATCH_TOKENS + BENCHMARK_GENERATION_TOKENS {
        Err(CompressionError::Runtime("thread benchmark token sequence is too short".to_owned()))
    } else {
        Ok(())
    }
}

/// Checks that there are enough tokens to measure sizes of batches with.
pub fn check_batch_benchmark_tokens(tokens: usize) -> (r: Result<(), CompressionError>)
    ensures
        match r {
            Ok(_) => tokens >= BENCHMARK_WARMUP_TOKENS + BATCH_SIZE_BENCHMARK_TOKENS,
            Err(error) => tokens < BENCHMARK_WARMUP_TOKENS + BATCH_SIZE_BENCHMARK_TOKENS && error@
                == error::ErrorView::Runtime(
                "physical batch benchmark token sequence is too short"@,
            ),
        },
{
    if tokens < BENCHMARK_WARMUP_TOKENS + BATCH_SIZE_BENCHMARK_TOKENS {
        Err(
            CompressionError::Runtime(
                "physical batch benchmark token sequence is too short".to_owned(),
            ),
        )
    } else {
        Ok(())
    }
}

/// Checks that a prompt leaves room for the output that is compared.
pub fn check_quality_prompt(tokens: usize, physical_batch_size: u32) -> (r: Result<
    (),
    CompressionError,
>)
    ensures
        match r {
            Ok(_) => tokens + BATCH_SIZE_QUALITY_MAX_PREDICTIONS
                <= BATCH_SIZE_QUALITY_CONTEXT_LENGTH,
            Err(error) => tokens + BATCH_SIZE_QUALITY_MAX_PREDICTIONS
                > BATCH_SIZE_QUALITY_CONTEXT_LENGTH && error@ == error::ErrorView::Runtime(
                text::spec_decimal(physical_batch_size as nat)
                    + "-token batch quality prompt exceeds its context"@,
            ),
        },
{
    if tokens > BATCH_SIZE_QUALITY_CONTEXT_LENGTH as usize - BATCH_SIZE_QUALITY_MAX_PREDICTIONS {
        Err(
            CompressionError::Runtime(
                text::concat2(
                    &text::decimal(physical_batch_size as u64),
                    "-token batch quality prompt exceeds its context",
                ),
            ),
        )
    } else {
        Ok(())
    }
}

/// The candidate of the `k`-th measurement. First each is measured in turn for three rounds, each
/// round beginning one further where it rotates; then those that lie apart for two rounds.
pub open spec fn subject(count: int, rotating: bool, unstable: Seq<int>, k: int) -> Option<int> {
    let initial = BENCHMARK_INITIAL_ROUNDS * count;
    if k < initial {
        Some(
            if rotating {
                (k / count + k % count) % count
            } else {
                k % count
            },
        )
    } else if k < initial + BENCHMARK_UNSTABLE_EXTRA_ROUNDS * unstable.len() {
        Some(unstable[(k - initial) % (unstable.len() as int)])
    } else {
        None
    }
}

/// The times of a candidate among the first `n`.
pub open spec fn values_of(
    times: Seq<int>,
    count: int,
    rotating: bool,
    unstable: Seq<int>,
    candidate: int,
    n: int,
) -> Seq<int>
    decreases n,
{
    if n <= 0 {
        Seq::empty()
    } else {
        let earlier = values_of(times, count, rotating, unstable, candidate, n - 1);
        if subject(count, rotating, unstable, n - 1) == Some(candidate) {
            earlier.push(times[n - 1])
        } else {
            earlier
        }
    }
}

/// The times of a candidate in the first rounds.
pub open spec fn initial_values(times: Seq<int>, count: int, rotating: bool, candidate: int) -> Seq<
    int,
> {
    values_of(times, count, rotating, Seq::empty(), candidate, BENCHMARK_INITIAL_ROUNDS * count)
}

/// The first times of a candidate lie apart, in one series of measurements or another.
pub open spec fn lies_apart(table: Seq<Seq<int>>, count: int, rotating: bool, candidate: int) -> bool {
    exists|s: int|
        0 <= s < table.len() && thread_tuning::spec_measurements_are_unstable(
            initial_values(#[trigger] table[s], count, rotating, candidate),
        )
}

/// The candidates below a number whose first times lie apart, in order.
pub open spec fn unstable_up_to(
    table: Seq<Seq<int>>,
    count: int,
    rotating: bool,
    candidate: int,
) -> Seq<int>
    decreases candidate,
{
    if candidate <= 0 {
        Seq::empty()
    } else {
        let earlier = unstable_up_to(table, count, rotating, candidate - 1);
        if lies_apart(table, count, rotating, candidate - 1) {
            earlier.push(candidate - 1)
        } else {
            earlier
        }
    }
}

/// The candidates that are measured again, once the first rounds are over.
pub open spec fn unstable_of(table: Seq<Seq<int>>, count: int, rotating: bool) -> Seq<int> {
    if table[0].len() < BENCHMARK_INITIAL_ROUNDS * count {
        Seq::empty()
    } else {
        unstable_up_to(table, count, rotating, count)
    }
}

/// The table with one more measurement.
pub open spec fn with_measurement(table: Seq<Seq<int>>, times: Seq<int>) -> Seq<Seq<int>> {
    Seq::new(table.len(), |s: int| table[s].push(times[s]))
}

/// The nanoseconds of series of measurements.
pub open spec fn table_of(series: Seq<Vec<Elapsed>>) -> Seq<Seq<int>> {
    series.map_values(|times: Vec<Elapsed>| thread_tuning::nanos_of(times@))
}

/// Earlier times are those of a longer series too.
proof fn values_of_longer(
    times: Seq<int>,
    longer: Seq<int>,
    count: int,
    rotating: bool,
    unstable: Seq<int>,
    candidate: int,
    n: int,
)
    requires
        n <= times.len() <= longer.len(),
        longer.take(times.len() as int) == times,
    ensures
        values_of(times, count, rotating, unstable, candidate, n) == values_of(
            longer,
            count,
            rotating,
            unstable,
            candidate,
            n,
        ),
    decreases n,
{
    if n > 0 {
        values_of_longer(times, longer, count, rotating, unstable, candidate, n - 1);
        assert(longer.take(times.len() as int)[n - 1] == longer[n - 1]);
    }
}

/// Which candidates lie apart is settled once the first rounds are over.
proof fn unstable_is_settled(
    table: Seq<Seq<int>>,
    times: Seq<int>,
    count: int,
    rotating: bool,
    candidate: int,
)
    requires
        table.len() > 0,
        forall|s: int|
            0 <= s < table.len() ==> (#[trigger] table[s]).len() >= BENCHMARK_INITIAL_ROUNDS
                * count,
    ensures
        unstable_up_to(with_measurement(table, times), count, rotating, candidate)
            == unstable_up_to(table, count, rotating, candidate),
    decreases candidate,
{
    let longer = with_measurement(table, times);
    if candidate > 0 {
        unstable_is_settled(table, times, count, rotating, candidate - 1);
        assert forall|s: int| 0 <= s < table.len() implies initial_values(
            #[trigger] table[s],
            count,
            rotating,
            candidate - 1,
        ) == initial_values(longer[s], count, rotating, candidate - 1) by {
            assert(longer[s].take(table[s].len() as int) =~= table[s]);
            values_of_longer(
                table[s],
                longer[s],
                count,
                rotating,
                Seq::empty(),
                candidate - 1,
                BENCHMARK_INITIAL_ROUNDS * count,
            );
        }
        if lies_apart(table, count, rotating, candidate - 1) {
            let s = choose|s: int|
                0 <= s < table.len() && thread_tuning::spec_measurements_are_unstable(
                    initial_values(#[trigger] table[s], count, rotating, candidate - 1),
                );
            assert(thread_tuning::spec_measurements_are_unstable(
                initial_values(longer[s], count, rotating, candidate - 1),
            ));
        }
        if lies_apart(longer, count, rotating, candidate - 1) {
            let s = choose|s: int|
                0 <= s < longer.len() && thread_tuning::spec_measurements_are_unstable(
                    initial_values(#[trigger] longer[s], count, rotating, candidate - 1),
                );
            assert(thread_tuning::spec_measurements_are_unstable(
                initial_values(table[s], count, rotating, candidate - 1),
            ));
        }
    }
}

/// The candidates that are measured again are among the candidates.
proof fn unstable_are_candidates(
    table: Seq<Seq<int>>,
    count: int,
    rotating: bool,
    candidate: int,
)
    requires
        0 <= candidate,
    ensures
        ({
            let unstable = unstable_up_to(table, count, rotating, candidate);
            &&& unstable.len() <= candidate
            &&& forall|i: int|
                0 <= i < unstable.len() ==> 0 <= #[trigger] unstable[i] < candidate
        }),
    decreases candidate,
{
    if candidate > 0 {
        unstable_are_candidates(table, count, rotating, candidate - 1);
    }
}

/// Measuring ends: at most five measurements are made for each candidate.
pub proof fn measuring_ends(table: Seq<Seq<int>>, count: int, rotating: bool)
    requires
        count > 0,
        table.len() > 0,
        table[0].len() >= 5 * count,
    ensures
        subject(count, rotating, unstable_of(table, count, rotating), table[0].len() as int)
            is None,
{
    unstable_are_candidates(table, count, rotating, count);
}

/// What is measured next is one of the candidates.
pub proof fn subjects_are_candidates(table: Seq<Seq<int>>, count: int, rotating: bool)
    requires
        count > 0,
    ensures
        match subject(count, rotating, unstable_of(table, count, rotating), table[0].len() as int) {
            Some(candidate) => 0 <= candidate < count,
            None => true,
        },
{
    let k = table[0].len() as int;
    unstable_are_candidates(table, count, rotating, count);
    vstd::arithmetic::div_mod::lemma_mod_bound(k, count);
    vstd::arithmetic::div_mod::lemma_mod_bound(k / count + k % count, count);
    let unstable = unstable_of(table, count, rotating);
    if unstable.len() > 0 {
        vstd::arithmetic::div_mod::lemma_mod_bound(
            k - BENCHMARK_INITIAL_ROUNDS * count,
            unstable.len() as int,
        );
    }
}

/// After `m` measurements of a round that does not rotate, those before the candidate's turn have
/// one measurement less than those after it.
proof fn turns_in_order(
    times: Seq<int>,
    count: int,
    unstable: Seq<int>,
    candidate: int,
    round: int,
    m: int,
)
    requires
        0 <= candidate < count,
        0 <= round < BENCHMARK_INITIAL_ROUNDS,
        0 <= m <= count,
    ensures
        values_of(times, count, false, unstable, candidate, round * count + m).len() == round + (
        if m > candidate {
            1int
        } else {
            0
        }),
    decreases round, m,
{
    let n = round * count + m;
    if m > 0 {
        turns_in_order(times, count, unstable, candidate, round, m - 1);
        assert(n - 1 == round * count + (m - 1));
        assert((n - 1) % count == m - 1) by {
            vstd::arithmetic::div_mod::lemma_fundamental_div_mod_converse(
                n - 1,
                count,
                round,
                m - 1,
            );
        }
        assert(n - 1 < BENCHMARK_INITIAL_ROUNDS * count) by (nonlinear_arith)
            requires
                n == round * count + m,
                m <= count,
                0 <= round < BENCHMARK_INITIAL_ROUNDS,
                0 < count,
        ;
        assert(n > 0) by (nonlinear_arith)
            requires
                n == round * count + m,
                m > 0,
                round >= 0,
                count > 0,
        ;
    } else if round > 0 {
        turns_in_order(times, count, unstable, candidate, round - 1, count);
        assert(n == (round - 1) * count + count) by (nonlinear_arith)
            requires
                n == round * count,
        ;
    } else {
        assert(n == 0) by (nonlinear_arith)
            requires
                n == round * count + m,
                round == 0,
                m == 0,
        ;
    }
}

/// Further measurements take none away.
proof fn values_only_grow(
    times: Seq<int>,
    count: int,
    rotating: bool,
    unstable: Seq<int>,
    candidate: int,
    n: int,
    later: int,
)
    requires
        n <= later,
    ensures
        values_of(times, count, rotating, unstable, candidate, n).len() <= values_of(
            times,
            count,
            rotating,
            unstable,
            candidate,
            later,
        ).len(),
    decreases later - n,
{
    if n < later && later > 0 {
        values_only_grow(times, count, rotating, unstable, candidate, n, later - 1);
    }
}

/// Once the first rounds are over, every candidate was measured at least three times, where rounds
/// begin with the first candidate.
pub proof fn each_candidate_is_measured(
    times: Seq<int>,
    count: int,
    unstable: Seq<int>,
    candidate: int,
    n: int,
)
    requires
        0 <= candidate < count,
        n >= BENCHMARK_INITIAL_ROUNDS * count,
    ensures
        values_of(times, count, false, unstable, candidate, n).len() >= BENCHMARK_INITIAL_ROUNDS,
{
    turns_in_order(times, count, unstable, candidate, 2, count);
    assert(2 * count + count == BENCHMARK_INITIAL_ROUNDS * count);
    values_only_grow(
        times,
        count,
        false,
        unstable,
        candidate,
        BENCHMARK_INITIAL_ROUNDS * count,
        n,
    );
}

/// Once the first rounds are over, every one of three candidates was measured at least three times,
/// where each round begins one further.
pub proof fn each_size_is_measured(times: Seq<int>, unstable: Seq<int>, candidate: int, n: int)
    requires
        0 <= candidate < 3,
        n >= 9,
    ensures
        values_of(times, 3, true, unstable, candidate, n).len() >= BENCHMARK_INITIAL_ROUNDS,
{
    reveal_with_fuel(values_of, 10);
    values_only_grow(times, 3, true, unstable, candidate, 9, n);
}

/// The candidate of the `k`-th measurement.
fn subject_at(count: usize, rotating: bool, unstable: &Vec<usize>, k: usize) -> (r: Option<usize>)
    requires
        0 < count,
        BENCHMARK_INITIAL_ROUNDS * count <= usize::MAX,
        unstable@.len() <= count,
    ensures
        contents::view_position(r) == subject(
            count as int,
            rotating,
            contents::positions(unstable@),
            k as int,
        ),
{
    let initial: usize = BENCHMARK_INITIAL_ROUNDS * count;
    let again: usize = unstable.len();
    assert(again == contents::positions(unstable@).len());
    if k < initial {
        proof {
            vstd::arithmetic::div_mod::lemma_div_is_ordered_by_denominator(k as int, 1, count as int);
            vstd::arithmetic::div_mod::lemma_div_basics(k as int);
            vstd::arithmetic::div_mod::lemma_mod_bound(k as int, count as int);
        }
        assert(k / count < 3) by (nonlinear_arith)
            requires
                k < 3 * count,
                0 < count,
        ;
        if rotating {
            Some((k / count + k % count) % count)
        } else {
            Some(k % count)
        }
    } else if k - initial < BENCHMARK_UNSTABLE_EXTRA_ROUNDS * again {
        let place: usize = (k - initial) % again;
        proof {
            vstd::arithmetic::div_mod::lemma_mod_bound(k - initial, again as int);
            assert(contents::positions(unstable@)[place as int] == unstable@[place as int]);
        }
        Some(unstable[place])
    } else {
        None
    }
}

/// The times of a candidate among those of a series.
fn values_among(
    times: &Vec<Elapsed>,
    count: usize,
    rotating: bool,
    unstable: &Vec<usize>,
    candidate: usize,
) -> (r: Vec<Elapsed>)
    requires
        0 < count,
        BENCHMARK_INITIAL_ROUNDS * count <= usize::MAX,
        unstable@.len() <= count,
    ensures
        thread_tuning::nanos_of(r@) == values_of(
            thread_tuning::nanos_of(times@),
            count as int,
            rotating,
            contents::positions(unstable@),
            candidate as int,
            times@.len() as int,
        ),
{
    let ghost nanos = thread_tuning::nanos_of(times@);
    let mut values: Vec<Elapsed> = Vec::new();
    assert(thread_tuning::nanos_of(values@) =~= Seq::empty());
    let mut k: usize = 0;
    while k < times.len()
        invariant
            k <= times@.len(),
            0 < count,
            BENCHMARK_INITIAL_ROUNDS * count <= usize::MAX,
            unstable@.len() <= count,
            nanos == thread_tuning::nanos_of(times@),
            thread_tuning::nanos_of(values@) == values_of(
                nanos,
                count as int,
                rotating,
                contents::positions(unstable@),
                candidate as int,
                k as int,
            ),
        decreases times@.len() - k,
    {
        match subject_at(count, rotating, unstable, k) {
            Some(measured) => {
                if measured == candidate {
                    let ghost earlier = values@;
                    let time: Elapsed = times[k];
                    values.push(time);
                    assert(thread_tuning::nanos_of(values@) =~= thread_tuning::nanos_of(
                        earlier,
                    ).push(nanos[k as int]));
                }
            },
            None => {},
        }
        k = k + 1;
    }
    values
}

/// The series hold the first rounds and nothing more.
spec fn first_rounds(series: Seq<Vec<Elapsed>>, count: int) -> bool {
    forall|s: int|
        0 <= s < series.len() ==> (#[trigger] series[s])@.len() == BENCHMARK_INITIAL_ROUNDS * count
}

/// Whether the first times of a candidate lie apart.
fn first_values_lie_apart(
    series: &Vec<Vec<Elapsed>>,
    count: usize,
    rotating: bool,
    candidate: usize,
) -> (r: bool)
    requires
        0 < count,
        BENCHMARK_INITIAL_ROUNDS * count <= usize::MAX,
        first_rounds(series@, count as int),
    ensures
        r == lies_apart(table_of(series@), count as int, rotating, candidate as int),
{
    let ghost table = table_of(series@);
    let none: Vec<usize> = Vec::new();
    assert(contents::positions(none@) =~= Seq::<int>::empty());
    let mut s: usize = 0;
    while s < series.len()
        invariant
            s <= series@.len(),
            0 < count,
            BENCHMARK_INITIAL_ROUNDS * count <= usize::MAX,
            first_rounds(series@, count as int),
            table == table_of(series@),
            none@.len() == 0,
            contents::positions(none@) == Seq::<int>::empty(),
            forall|i: int|
                0 <= i < s ==> !thread_tuning::spec_measurements_are_unstable(
                    initial_values(#[trigger] table[i], count as int, rotating, candidate as int),
                ),
        decreases series@.len() - s,
    {
        let values: Vec<Elapsed> = values_among(&series[s], count, rotating, &none, candidate);
        assert(series@[s as int]@.len() == BENCHMARK_INITIAL_ROUNDS * count);
        assert(table[s as int] == thread_tuning::nanos_of(series@[s as int]@));
        if thread_tuning::measurements_are_unstable(values.as_slice()) {
            return true;
        }
        s = s + 1;
    }
    false
}

/// The candidates whose first times lie apart.
fn unstable_in(series: &Vec<Vec<Elapsed>>, count: usize, rotating: bool) -> (r: Vec<usize>)
    requires
        0 < count,
        BENCHMARK_INITIAL_ROUNDS * count <= usize::MAX,
        first_rounds(series@, count as int),
    ensures
        contents::positions(r@) == unstable_up_to(
            table_of(series@),
            count as int,
            rotating,
            count as int,
        ),
{
    let mut found: Vec<usize> = Vec::new();
    assert(contents::positions(found@) =~= Seq::empty());
    let mut candidate: usize = 0;
    while candidate < count
        invariant
            0 < count,
            candidate <= count,
            BENCHMARK_INITIAL_ROUNDS * count <= usize::MAX,
            first_rounds(series@, count as int),
            contents::positions(found@) == unstable_up_to(
                table_of(series@),
                count as int,
                rotating,
                candidate as int,
            ),
        decreases count - candidate,
    {
        if first_values_lie_apart(series, count, rotating, candidate) {
            let ghost earlier = found@;
            found.push(candidate);
            assert(contents::positions(found@) =~= contents::positions(earlier).push(
                candidate as int,
            ));
        }
        candidate = candidate + 1;
    }
    found
}

/// Measurements of candidates, and which of them come next.
#[derive(Debug)]
pub struct Measurements {
    count: usize,
    rotating: bool,
    series: Vec<Vec<Elapsed>>,
    unstable: Vec<usize>,
}

impl Measurements {
    /// The series have the same length, and what is measured again is settled by them.
    #[verifier::type_invariant]
    spec fn well_formed(self) -> bool {
        &&& 0 < self.count
        &&& BENCHMARK_INITIAL_ROUNDS * self.count <= usize::MAX
        &&& self.series@.len() > 0
        &&& forall|s: int|
            0 <= s < self.series@.len() ==> (#[trigger] self.series@[s])@.len()
                == self.series@[0]@.len()
        &&& contents::positions(self.unstable@) == unstable_of(
            table_of(self.series@),
            self.count as int,
            self.rotating,
        )
    }

    /// The number of candidates.
    pub closed spec fn spec_count(&self) -> int {
        self.count as int
    }

    /// Whether each round begins one further.
    pub closed spec fn spec_rotating(&self) -> bool {
        self.rotating
    }

    /// The nanoseconds of the series of measurements.
    pub closed spec fn table(&self) -> Seq<Seq<int>> {
        table_of(self.series@)
    }

    /// The candidates that are measured again.
    pub open spec fn spec_unstable(&self) -> Seq<int> {
        unstable_of(self.table(), self.spec_count(), self.spec_rotating())
    }

    /// No measurements yet, in so many series.
    pub fn new(count: usize, rotating: bool, width: usize) -> (r: Measurements)
        requires
            0 < count,
            BENCHMARK_INITIAL_ROUNDS * count <= usize::MAX,
            0 < width,
        ensures
            r.spec_count() == count,
            r.spec_rotating() == rotating,
            r.table() == Seq::new(width as nat, |s: int| Seq::<int>::empty()),
    {
        let mut series: Vec<Vec<Elapsed>> = Vec::new();
        let mut s: usize = 0;
        while s < width
            invariant
                s <= width,
                series@.len() == s,
                forall|i: int| 0 <= i < s ==> (#[trigger] series@[i])@.len() == 0,
            decreases width - s,
        {
            series.push(Vec::new());
            s = s + 1;
        }
        let unstable: Vec<usize> = Vec::new();
        proof {
            assert(table_of(series@) =~= Seq::new(width as nat, |s: int| Seq::<int>::empty())) by {
                assert forall|i: int| 0 <= i < width implies #[trigger] table_of(series@)[i]
                    == Seq::<int>::empty() by {
                    assert(series@[i]@.len() == 0);
                    assert(thread_tuning::nanos_of(series@[i]@) =~= Seq::<int>::empty());
                }
            }
            assert(contents::positions(unstable@) =~= Seq::empty());
        }
        Measurements { count, rotating, series, unstable }
    }

    /// The candidate that is measured next; none where enough was measured.
    pub fn next(&self) -> (r: Option<usize>)
        ensures
            contents::view_position(r) == subject(
                self.spec_count(),
                self.spec_rotating(),
                self.spec_unstable(),
                self.table()[0].len() as int,
            ),
            match r {
                Some(candidate) => candidate < self.spec_count(),
                None => true,
            },
    {
        proof {
            use_type_invariant(self);
            subjects_are_candidates(self.table(), self.count as int, self.rotating);
            unstable_are_candidates(self.table(), self.count as int, self.rotating, self.count as int);
            assert(self.table()[0].len() == self.series@[0]@.len());
            assert(contents::positions(self.unstable@).len() == self.unstable@.len());
        }
        subject_at(self.count, self.rotating, &self.unstable, self.series[0].len())
    }

    /// The times of a candidate in a series.
    pub fn values(&self, s: usize, candidate: usize) -> (r: Vec<Elapsed>)
        requires
            s < self.table().len(),
        ensures
            thread_tuning::nanos_of(r@) == values_of(
                self.table()[s as int],
                self.spec_count(),
                self.spec_rotating(),
                self.spec_unstable(),
                candidate as int,
                self.table()[0].len() as int,
            ),
    {
        proof {
            use_type_invariant(self);
            unstable_are_candidates(self.table(), self.count as int, self.rotating, self.count as int);
            assert(contents::positions(self.unstable@).len() == self.unstable@.len());
            assert(self.table()[0].len() == self.series@[0]@.len());
            assert(self.series@[s as int]@.len() == self.series@[0]@.len());
        }
        values_among(&self.series[s], self.count, self.rotating, &self.unstable, candidate)
    }

    /// Adds what the next measurement gave in each series.
    pub fn record(&mut self, times: &[Elapsed])
        requires
            times@.len() == old(self).table().len(),
        ensures
            final(self).spec_count() == old(self).spec_count(),
            final(self).spec_rotating() == old(self).spec_rotating(),
            final(self).table() == with_measurement(
                old(self).table(),
                thread_tuning::nanos_of(times@),
            ),
    {
        proof {
            use_type_invariant(&*self);
        }
        let ghost before = table_of(self.series@);
        let ghost nanos = thread_tuning::nanos_of(times@);
        let count: usize = self.count;
        let rotating: bool = self.rotating;
        let width: usize = self.series.len();
        let mut series: Vec<Vec<Elapsed>> = Vec::new();
        let mut s: usize = 0;
        while s < width
            invariant
                s <= width == self.series@.len(),
                width == times@.len(),
                series@.len() == s,
                forall|i: int|
                    0 <= i < s ==> (#[trigger] series@[i])@ == self.series@[i]@.push(times@[i]),
            decreases width - s,
        {
            let mut longer: Vec<Elapsed> = Vec::new();
            let total: usize = self.series[s].len();
            let mut k: usize = 0;
            while k < total
                invariant
                    s < width == self.series@.len(),
                    k <= total == self.series@[s as int]@.len(),
                    longer@ == self.series@[s as int]@.take(k as int),
                decreases total - k,
            {
                longer.push(self.series[s][k]);
                assert(longer@ =~= self.series@[s as int]@.take(k + 1));
                k = k + 1;
            }
            longer.push(times[s]);
            assert(longer@ =~= self.series@[s as int]@.push(times@[s as int]));
            series.push(longer);
            s = s + 1;
        }
        let ghost after = table_of(series@);
        proof {
            assert forall|i: int| 0 <= i < width implies #[trigger] after[i] == before[i].push(
                nanos[i],
            ) by {
                assert(series@[i]@ == self.series@[i]@.push(times@[i]));
                assert(thread_tuning::nanos_of(series@[i]@) =~= thread_tuning::nanos_of(
                    self.series@[i]@,
                ).push(times@[i].spec_nanos()));
            }
            assert(after =~= with_measurement(before, nanos));
            assert(after[0].len() == series@[0]@.len());
            assert(before[0].len() == self.series@[0]@.len());
            assert forall|i: int| 0 <= i < series@.len() implies (#[trigger] series@[i])@.len()
                == series@[0]@.len() by {
                assert(self.series@[i]@.len() == self.series@[0]@.len());
                assert(series@[0]@ == self.series@[0]@.push(times@[0]));
            }
        }
        let initial: usize = BENCHMARK_INITIAL_ROUNDS * count;
        let taken: usize = series[0].len();
        let mut unstable: Vec<usize> = Vec::new();
        if taken == initial {
            assert(first_rounds(series@, count as int));
            unstable = unstable_in(&series, count, rotating);
        } else if taken > initial {
            unstable = self.unstable.clone();
            assert(unstable@ =~= self.unstable@);
            proof {
                assert forall|i: int| 0 <= i < before.len() implies (#[trigger] before[i]).len()
                    >= BENCHMARK_INITIAL_ROUNDS * count by {
                    assert(before[i].len() == before[0].len());
                }
                unstable_is_settled(before, nanos, count as int, rotating, count as int);
            }
        } else {
            assert(contents::positions(unstable@) =~= Seq::empty());
        }
        *self = Measurements { count, rotating, series, unstable };
    }
}

/// The middle of the times of each candidate.
pub open spec fn medians(
    times: Seq<int>,
    count: int,
    rotating: bool,
    unstable: Seq<int>,
    n: int,
) -> Seq<int> {
    Seq::new(
        count as nat,
        |i: int| thread_tuning::spec_median(values_of(times, count, rotating, unstable, i, n)),
    )
}

/// What comes next where threads are measured.
#[derive(Debug, Clone, Copy, PartialEq, Eq, Structural)]
pub enum ThreadStep {
    /// The measuring was given up.
    Cancelled,
    /// So many threads are measured.
    Measure(u32),
    /// The threads are chosen.
    Selected(RuntimeThreadCounts),
}

/// What comes next after the measurements, of batches first and of generation second, where threads
/// are measured: nothing is measured where there is one candidate; else the candidates in turn, and
/// of them the smallest near the fastest is chosen.
pub open spec fn follows_for_threads(
    candidates: Seq<u32>,
    table: Seq<Seq<int>>,
    cancelled: bool,
    step: ThreadStep,
) -> bool {
    let count = candidates.len() as int;
    let unstable = unstable_of(table, count, false);
    let taken = table[0].len() as int;
    if count == 1 {
        step == ThreadStep::Selected(
            RuntimeThreadCounts { generation: candidates[0], batch: candidates[0] },
        )
    } else {
        match subject(count, false, unstable, taken) {
            Some(i) => step == (if cancelled {
                ThreadStep::Cancelled
            } else {
                ThreadStep::Measure(candidates[i])
            }),
            None => step matches ThreadStep::Selected(counts) && thread_tuning::is_preferred(
                candidates,
                medians(table[1], count, false, unstable, taken),
                counts.generation,
            ) && thread_tuning::is_preferred(
                candidates,
                medians(table[0], count, false, unstable, taken),
                counts.batch,
            ),
        }
    }
}

/// Measuring how many threads a model runs fastest on.
#[derive(Debug)]
pub struct ThreadBenchmark {
    candidates: Vec<u32>,
    measurements: Measurements,
}

impl ThreadBenchmark {
    /// There are candidates, and each measurement gives the time of a batch and that of generation.
    #[verifier::type_invariant]
    spec fn well_formed(self) -> bool {
        &&& 1 <= self.candidates@.len() <= 8
        &&& self.measurements.spec_count() == self.candidates@.len()
        &&& !self.measurements.spec_rotating()
        &&& self.measurements.table().len() == 2
    }

    /// The candidates.
    pub closed spec fn candidates(&self) -> Seq<u32> {
        self.candidates@
    }

    /// The times of batches, and those of generation.
    pub closed spec fn table(&self) -> Seq<Seq<int>> {
        self.measurements.table()
    }

    /// Begins to measure on a machine with so many threads.
    pub fn start(available_threads: usize) -> (r: ThreadBenchmark)
        ensures
            r.candidates() == thread_tuning::spec_thread_tuning_candidates(
                available_threads as int,
            ),
            r.table() == seq![Seq::<int>::empty(), Seq::<int>::empty()],
    {
        let candidates: Vec<u32> = thread_tuning::thread_tuning_candidates(available_threads);
        proof {
            thread_tuning::candidates_are_usable(available_threads as int);
        }
        let measurements: Measurements = Measurements::new(candidates.len(), false, 2);
        assert(measurements.table() =~= seq![Seq::<int>::empty(), Seq::<int>::empty()]);
        ThreadBenchmark { candidates, measurements }
    }

    /// The middle times of each candidate.
    fn samples(&self) -> (r: Vec<ThreadBenchmarkSample>)
        ensures
            ({
                let count = self.candidates().len() as int;
                let unstable = unstable_of(self.table(), count, false);
                let taken = self.table()[0].len() as int;
                &&& thread_tuning::threads_of(r@) == self.candidates()
                &&& thread_tuning::times_of(r@, BenchmarkMeasure::Batch) == medians(
                    self.table()[0],
                    count,
                    false,
                    unstable,
                    taken,
                )
                &&& thread_tuning::times_of(r@, BenchmarkMeasure::Generation) == medians(
                    self.table()[1],
                    count,
                    false,
                    unstable,
                    taken,
                )
            }),
    {
        proof {
            use_type_invariant(self);
        }
        let ghost count = self.candidates@.len() as int;
        let ghost table = self.measurements.table();
        let ghost unstable = unstable_of(table, count, false);
        let ghost taken = table[0].len() as int;
        let ghost batches = medians(table[0], count, false, unstable, taken);
        let ghost generations = medians(table[1], count, false, unstable, taken);
        let mut samples: Vec<ThreadBenchmarkSample> = Vec::new();
        let mut i: usize = 0;
        while i < self.candidates.len()
            invariant
                i <= self.candidates@.len() == count,
                samples@.len() == i,
                self.measurements.table() == table,
                table.len() == 2,
                self.measurements.spec_count() == count,
                !self.measurements.spec_rotating(),
                unstable == unstable_of(table, count, false),
                taken == table[0].len(),
                batches == medians(table[0], count, false, unstable, taken),
                generations == medians(table[1], count, false, unstable, taken),
                forall|j: int|
                    0 <= j < i ==> (#[trigger] samples@[j]).threads == self.candidates@[j]
                        && samples@[j].batch_elapsed.spec_nanos() == batches[j]
                        && samples@[j].generation_elapsed.spec_nanos() == generations[j],
            decreases self.candidates@.len() - i,
        {
            let batch: Vec<Elapsed> = self.measurements.values(0, i);
            let generation: Vec<Elapsed> = self.measurements.values(1, i);
            samples.push(
                ThreadBenchmarkSample {
                    threads: self.candidates[i],
                    batch_elapsed: thread_tuning::median_duration(batch.as_slice()),
                    generation_elapsed: thread_tuning::median_duration(generation.as_slice()),
                },
            );
            i = i + 1;
        }
        assert(thread_tuning::threads_of(samples@) =~= self.candidates@);
        assert(thread_tuning::times_of(samples@, BenchmarkMeasure::Batch) =~= batches);
        assert(thread_tuning::times_of(samples@, BenchmarkMeasure::Generation) =~= generations);
        samples
    }

    /// What comes next.
    pub fn next(&self, cancelled: bool) -> (r: ThreadStep)
        ensures
            follows_for_threads(self.candidates(), self.table(), cancelled, r),
    {
        proof {
            use_type_invariant(self);
        }
        if self.candidates.len() == 1 {
            return ThreadStep::Selected(
                RuntimeThreadCounts { generation: self.candidates[0], batch: self.candidates[0] },
            );
        }
        match self.measurements.next() {
            Some(i) => {
                if cancelled {
                    ThreadStep::Cancelled
                } else {
                    ThreadStep::Measure(self.candidates[i])
                }
            },
            None => {
                let samples: Vec<ThreadBenchmarkSample> = self.samples();
                ThreadStep::Selected(
                    RuntimeThreadCounts {
                        generation: thread_tuning::select_preferred_thread_count(
                            samples.as_slice(),
                            BenchmarkMeasure::Generation,
                        ),
                        batch: thread_tuning::select_preferred_thread_count(
                            samples.as_slice(),
                            BenchmarkMeasure::Batch,
                        ),
                    },
                )
            },
        }
    }

    /// Adds how long the batch and the generation took.
    pub fn record(&mut self, batch_elapsed: Elapsed, generation_elapsed: Elapsed)
        ensures
            final(self).candidates() == old(self).candidates(),
            final(self).table() == seq![
                old(self).table()[0].push(batch_elapsed.spec_nanos()),
                old(self).table()[1].push(generation_elapsed.spec_nanos()),
            ],
    {
        proof {
            use_type_invariant(&*self);
        }
        let count: usize = self.candidates.len();
        let mut measurements: Measurements = Measurements::new(count, false, 2);
        std::mem::swap(&mut measurements, &mut self.measurements);
        let times: [Elapsed; 2] = [batch_elapsed, generation_elapsed];
        measurements.record(&times);
        assert(measurements.table() =~= seq![
            old(self).table()[0].push(batch_elapsed.spec_nanos()),
            old(self).table()[1].push(generation_elapsed.spec_nanos()),
        ]);
        self.measurements = measurements;
    }
}

/// What the preferred number of threads is one of.
proof fn preferred_is_candidate(threads: Seq<u32>, times: Seq<int>, chosen: u32)
    requires
        thread_tuning::is_preferred(threads, times, chosen),
        threads.len() == times.len(),
        times.len() > 0,
    ensures
        threads.contains(chosen),
{
    let i = choose|i: int|
        0 <= i < times.len() && #[trigger] thread_tuning::is_near_fastest(times, i) && threads[i]
            == chosen;
    assert(threads[i] == chosen);
}

/// The threads that are chosen were candidates, so that they may be used on the machine.
pub proof fn selected_threads_are_usable(
    available_threads: int,
    table: Seq<Seq<int>>,
    cancelled: bool,
    counts: RuntimeThreadCounts,
)
    requires
        follows_for_threads(
            thread_tuning::spec_thread_tuning_candidates(available_threads),
            table,
            cancelled,
            ThreadStep::Selected(counts),
        ),
    ensures
        1 <= counts.generation <= thread_tuning::usable_threads(available_threads),
        1 <= counts.batch <= thread_tuning::usable_threads(available_threads),
{
    let candidates = thread_tuning::spec_thread_tuning_candidates(available_threads);
    thread_tuning::candidates_are_usable(available_threads);
    let count = candidates.len() as int;
    let unstable = unstable_of(table, count, false);
    let taken = table[0].len() as int;
    if count != 1 {
        preferred_is_candidate(
            candidates,
            medians(table[1], count, false, unstable, taken),
            counts.generation,
        );
        preferred_is_candidate(
            candidates,
            medians(table[0], count, false, unstable, taken),
            counts.batch,
        );
    }
}

/// What comes next where the size of batches is measured.
#[derive(Debug, Clone, Copy, PartialEq, Eq, Structural)]
pub enum PhysicalBatchStep {
    /// The measuring was given up.
    Cancelled,
    /// The size is measured.
    Measure(u32),
    /// The prompt is answered with batches of the size.
    Generate { prompt: usize, physical_batch_size: u32 },
    /// The size is chosen.
    Selected(u32),
}

/// The size that is fastest enough, by the measurements.
pub open spec fn speed_candidate(times: Seq<int>) -> u32 {
    thread_tuning::spec_select_physical_batch_size(
        PHYSICAL_BATCH_SIZE_CANDIDATES@,
        medians(times, 3, true, unstable_of(seq![times], 3, true), times.len() as int),
    )
}

/// Two outputs of one prompt differ.
pub open spec fn outputs_differ(outputs: Seq<Seq<char>>, prompt: int) -> bool {
    0 <= prompt && 2 * prompt + 1 < outputs.len() && outputs[2 * prompt] != outputs[2 * prompt + 1]
}

/// Whether the faster size writes what the usual one writes, once that is known. Outputs come in
/// pairs, one pair for each prompt.
pub open spec fn verdict(outputs: Seq<Seq<char>>, prompts: int) -> Option<bool> {
    if prompts == 0 || exists|prompt: int| #[trigger] outputs_differ(outputs, prompt) {
        Some(false)
    } else if outputs.len() as int / 2 >= prompts {
        Some(true)
    } else {
        None
    }
}

/// What comes next after the measurements and the outputs, where the size of batches is measured.
pub open spec fn next_for_batches(
    times: Seq<int>,
    outputs: Seq<Seq<char>>,
    prompts: int,
    cancelled: bool,
) -> PhysicalBatchStep {
    match subject(3, true, unstable_of(seq![times], 3, true), times.len() as int) {
        Some(i) => if cancelled {
            PhysicalBatchStep::Cancelled
        } else {
            PhysicalBatchStep::Measure(PHYSICAL_BATCH_SIZE_CANDIDATES@[i])
        },
        None => {
            let faster = speed_candidate(times);
            if faster == DEFAULT_PHYSICAL_BATCH_SIZE {
                PhysicalBatchStep::Selected(DEFAULT_PHYSICAL_BATCH_SIZE)
            } else {
                match verdict(outputs, prompts) {
                    Some(same) => PhysicalBatchStep::Selected(
                        thread_tuning::spec_select_quality_preserving(faster, same),
                    ),
                    None => if cancelled {
                        PhysicalBatchStep::Cancelled
                    } else {
                        PhysicalBatchStep::Generate {
                            prompt: (outputs.len() / 2) as usize,
                            physical_batch_size: if outputs.len() % 2 == 0 {
                                DEFAULT_PHYSICAL_BATCH_SIZE
                            } else {
                                faster
                            },
                        }
                    },
                }
            }
        },
    }
}

/// Measuring how many tokens a model computes at once, and whether that changes what it writes.
#[derive(Debug)]
pub struct PhysicalBatchBenchmark {
    measurements: Measurements,
    prompts: usize,
    outputs: Vec<String>,
}

impl PhysicalBatchBenchmark {
    /// There are three candidates, and each measurement gives one time.
    #[verifier::type_invariant]
    spec fn well_formed(self) -> bool {
        &&& self.measurements.spec_count() == 3
        &&& self.measurements.spec_rotating()
        &&& self.measurements.table().len() == 1
    }

    /// The times that were measured.
    pub closed spec fn times(&self) -> Seq<int> {
        self.measurements.table()[0]
    }

    /// The number of prompts that outputs are compared of.
    pub closed spec fn spec_prompts(&self) -> int {
        self.prompts as int
    }

    /// The outputs, in turn of the usual size and of the faster one.
    pub closed spec fn outputs(&self) -> Seq<Seq<char>> {
        contents::views(self.outputs@)
    }

    /// Begins to measure, with so many prompts to compare outputs of.
    pub fn start(prompts: usize) -> (r: PhysicalBatchBenchmark)
        ensures
            r.times() == Seq::<int>::empty(),
            r.spec_prompts() == prompts,
            r.outputs() == Seq::<Seq<char>>::empty(),
    {
        let outputs: Vec<String> = Vec::new();
        assert(contents::views(outputs@) =~= Seq::empty());
        PhysicalBatchBenchmark { measurements: Measurements::new(3, true, 1), prompts, outputs }
    }

    /// Whether the faster size writes what the usual one writes, once that is known.
    fn decided(&self) -> (r: Option<bool>)
        ensures
            r == verdict(self.outputs(), self.spec_prompts()),
    {
        let ghost outputs = contents::views(self.outputs@);
        if self.prompts == 0 {
            return Some(false);
        }
        let total: usize = self.outputs.len();
        let mut prompt: usize = 0;
        while prompt < total / 2
            invariant
                prompt <= total / 2,
                total == self.outputs@.len(),
                outputs == contents::views(self.outputs@),
                forall|i: int| 0 <= i < prompt ==> !#[trigger] outputs_differ(outputs, i),
            decreases total / 2 - prompt,
        {
            if !text::same(&self.outputs[2 * prompt], &self.outputs[2 * prompt + 1]) {
                assert(outputs_differ(outputs, prompt as int));
                return Some(false);
            }
            prompt = prompt + 1;
        }
        assert forall|i: int| !#[trigger] outputs_differ(outputs, i) by {
            if 0 <= i && 2 * i + 1 < outputs.len() {
                assert(i < prompt);
            }
        }
        if total / 2 >= self.prompts {
            Some(true)
        } else {
            None
        }
    }

    /// The size that is fastest enough, by the measurements.
    fn faster_size(&self) -> (r: u32)
        ensures
            r == speed_candidate(self.times()),
    {
        proof {
            use_type_invariant(self);
        }
        let ghost times = self.measurements.table()[0];
        let ghost unstable = unstable_of(seq![times], 3, true);
        let ghost middles = medians(times, 3, true, unstable, times.len() as int);
        assert(self.measurements.table() =~= seq![times]);
        let mut samples: Vec<PhysicalBatchBenchmarkSample> = Vec::new();
        let mut i: usize = 0;
        while i < 3
            invariant
                i <= 3,
                samples@.len() == i,
                self.measurements.spec_count() == 3,
                self.measurements.spec_rotating(),
                self.measurements.table() == seq![times],
                unstable == unstable_of(seq![times], 3, true),
                middles == medians(times, 3, true, unstable, times.len() as int),
                forall|j: int|
                    0 <= j < i ==> (#[trigger] samples@[j]).physical_batch_size
                        == PHYSICAL_BATCH_SIZE_CANDIDATES@[j] && samples@[j].elapsed.spec_nanos()
                        == middles[j],
            decreases 3 - i,
        {
            let values: Vec<Elapsed> = self.measurements.values(0, i);
            samples.push(
                PhysicalBatchBenchmarkSample {
                    physical_batch_size: PHYSICAL_BATCH_SIZE_CANDIDATES[i],
                    elapsed: thread_tuning::median_duration(values.as_slice()),
                },
            );
            i = i + 1;
        }
        assert(thread_tuning::sizes_of(samples@) =~= PHYSICAL_BATCH_SIZE_CANDIDATES@);
        assert(thread_tuning::spans_of(samples@) =~= middles);
        thread_tuning::select_physical_batch_size(samples.as_slice())
    }

    /// What comes next.
    pub fn next(&self, cancelled: bool) -> (r: PhysicalBatchStep)
        ensures
            r == next_for_batches(self.times(), self.outputs(), self.spec_prompts(), cancelled),
    {
        proof {
            use_type_invariant(self);
            assert(self.measurements.table() =~= seq![self.times()]);
        }
        match self.measurements.next() {
            Some(i) => {
                return if cancelled {
                    PhysicalBatchStep::Cancelled
                } else {
                    PhysicalBatchStep::Measure(PHYSICAL_BATCH_SIZE_CANDIDATES[i])
                };
            },
            None => {},
        }
        let faster: u32 = self.faster_size();
        if faster == DEFAULT_PHYSICAL_BATCH_SIZE {
            return PhysicalBatchStep::Selected(DEFAULT_PHYSICAL_BATCH_SIZE);
        }
        match self.decided() {
            Some(same) => PhysicalBatchStep::Selected(
                thread_tuning::select_quality_preserving_physical_batch_size(faster, same),
            ),
            None => {
                if cancelled {
                    PhysicalBatchStep::Cancelled
                } else {
                    let total: usize = self.outputs.len();
                    PhysicalBatchStep::Generate {
                        prompt: total / 2,
                        physical_batch_size: if total % 2 == 0 {
                            DEFAULT_PHYSICAL_BATCH_SIZE
                        } else {
                            faster
                        },
                    }
                }
            },
        }
    }

    /// Adds how long the batch took.
    pub fn record(&mut self, elapsed: Elapsed)
        ensures
            final(self).times() == old(self).times().push(elapsed.spec_nanos()),
            final(self).outputs() == old(self).outputs(),
            final(self).spec_prompts() == old(self).spec_prompts(),
    {
        proof {
            use_type_invariant(&*self);
        }
        let mut measurements: Measurements = Measurements::new(3, true, 1);
        std::mem::swap(&mut measurements, &mut self.measurements);
        let times: [Elapsed; 1] = [elapsed];
        measurements.record(&times);
        self.measurements = measurements;
    }

    /// Adds what the model wrote.
    pub fn accept_output(&mut self, output: String)
        ensures
            final(self).times() == old(self).times(),
            final(self).outputs() == old(self).outputs().push(output@),
            final(self).spec_prompts() == old(self).spec_prompts(),
    {
        proof {
            use_type_invariant(&*self);
        }
        let ghost before = self.outputs@;
        let ghost written = output@;
        let mut outputs: Vec<String> = Vec::new();
        std::mem::swap(&mut outputs, &mut self.outputs);
        outputs.push(output);
        self.outputs = outputs;
        assert(self.outputs() =~= contents::views(before).push(written));
    }
}

/// Another size than the usual one is chosen only where it is one of the candidates and, with it,
/// the model wrote for every prompt what it writes with the usual one.
pub proof fn chosen_size_changes_no_output(
    times: Seq<int>,
    outputs: Seq<Seq<char>>,
    prompts: int,
    cancelled: bool,
    size: u32,
    prompt: int,
)
    requires
        next_for_batches(times, outputs, prompts, cancelled) == PhysicalBatchStep::Selected(size),
        size != DEFAULT_PHYSICAL_BATCH_SIZE,
        0 <= prompt < prompts,
    ensures
        PHYSICAL_BATCH_SIZE_CANDIDATES@.contains(size),
        outputs[2 * prompt] == outputs[2 * prompt + 1],
{
    thread_tuning::selected_size_was_measured(
        PHYSICAL_BATCH_SIZE_CANDIDATES@,
        medians(times, 3, true, unstable_of(seq![times], 3, true), times.len() as int),
    );
    assert(!outputs_differ(outputs, prompt));
}

/// Where no prompts are compared, the usual size is kept.
pub proof fn usual_size_is_kept_unproven(
    times: Seq<int>,
    outputs: Seq<Seq<char>>,
    cancelled: bool,
    size: u32,
)
    requires
        next_for_batches(times, outputs, 0, cancelled) == PhysicalBatchStep::Selected(size),
    ensures
        size == DEFAULT_PHYSICAL_BATCH_SIZE,
{
}

/// The settings that follow from what was measured: none where measuring was given up. A failure to
/// measure sizes of batches leaves the usual one.
pub fn tuned_configuration(
    threads: RuntimeThreadCounts,
    physical_batch_size: Result<Option<u32>, CompressionError>,
) -> (r: Option<RuntimeInferenceConfig>)
    ensures
        r == (match physical_batch_size {
            Ok(None) => None,
            Ok(Some(size)) => Some(
                RuntimeInferenceConfig {
                    threads,
                    batch_sizes: RuntimeBatchSizes {
                        logical: DEFAULT_LOGICAL_BATCH_SIZE,
                        physical: size,
                    },
                },
            ),
            Err(_) => Some(thread_tuning::spec_runtime_config_for_threads(threads)),
        }),
{
    let physical: u32 = match physical_batch_size {
        Ok(Some(size)) => size,
        Ok(None) => {
            return None;
        },
        Err(_) => DEFAULT_PHYSICAL_BATCH_SIZE,
    };
    Some(
        RuntimeInferenceConfig {
            threads,
            batch_sizes: RuntimeBatchSizes { logical: DEFAULT_LOGICAL_BATCH_SIZE, physical },
        },
    )
}

/// Settings that were measured on a machine are valid there, so that they are read back.
pub proof fn measured_settings_are_valid(
    available_threads: int,
    table: Seq<Seq<int>>,
    counts: RuntimeThreadCounts,
    times: Seq<int>,
    outputs: Seq<Seq<char>>,
    prompts: int,
    cancelled: bool,
    size: u32,
)
    requires
        follows_for_threads(
            thread_tuning::spec_thread_tuning_candidates(available_threads),
            table,
            cancelled,
            ThreadStep::Selected(counts),
        ),
        next_for_batches(times, outputs, prompts, cancelled) == PhysicalBatchStep::Selected(size),
    ensures
        thread_tuning::spec_valid_runtime_configuration(
            RuntimeInferenceConfig {
                threads: counts,
                batch_sizes: RuntimeBatchSizes {
                    logical: DEFAULT_LOGICAL_BATCH_SIZE,
                    physical: size,
                },
            },
            available_threads,
        ),
{
    selected_threads_are_usable(available_threads, table, cancelled, counts);
    let sizes = PHYSICAL_BATCH_SIZE_CANDIDATES@;
    thread_tuning::selected_size_was_measured(
        sizes,
        medians(times, 3, true, unstable_of(seq![times], 3, true), times.len() as int),
    );
    assert(sizes[0] == 128 && sizes[1] == 256 && sizes[2] == 512);
    assert(sizes.contains(DEFAULT_PHYSICAL_BATCH_SIZE));
}

} // verus!
