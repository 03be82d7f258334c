//! Search for good compression parameters: a shuffled cross product of
//! fixed window sizes and minimum match lengths, walked under iteration and
//! wall-clock budgets, with three independent best-so-far trackers (best
//! combined score, best ratio, best speed).
//!
//! Scores are the fixed-point thousandths of the benchmark module, so the
//! whole scoring and tracking loop is verified; randomness (the shuffle and
//! the per-type sampling) and the optional fork-join evaluation go through
//! trusted wrappers.  The seeded shuffle's order is named, which makes a
//! seeded search order reproducible; everything else promises only what
//! holds of every outcome.

use vstd::prelude::*;

use rand::seq::SliceRandom;
use rand::SeedableRng;
use rayon::iter::{IntoParallelRefIterator, ParallelIterator};

use crate::asset_loader::{decimal_string, AssetInfo, AssetType};
use crate::benchmark::{
    clock_now, duration_nanos, elapsed_of, result_matches, run_benchmark, sat64,
    spec_asset_label, spec_benchmark_record, spec_result_combined, spec_result_ratio,
    spec_result_speed, BenchmarkResult, CompressionParameters,
};

verus! {

/// Configuration for parameter tuning.  The ratio/speed priority is in
/// thousandths: 1000 optimizes purely for compression ratio, 0 purely for
/// speed.
#[derive(Debug, Clone)]
pub struct TunerConfig {
    /// Number of benchmark runs for each parameter set.
    pub benchmark_runs: usize,
    /// Maximum wall-clock time to spend tuning, in nanoseconds, if any.
    pub max_tuning_time_nanos: Option<u64>,
    /// Maximum number of parameter sets to try.
    pub max_iterations: usize,
    /// Priority of compression ratio over speed, in thousandths.
    pub ratio_priority_milli: u64,
    /// Random seed for a reproducible search order.
    pub random_seed: Option<u64>,
    /// Whether to evaluate the assets of one candidate in parallel.
    pub parallel: bool,
}

impl TunerConfig {
    /// A configuration the tuner can run under: at least one benchmark run
    /// per candidate, and a priority that is a fraction of one.
    pub open spec fn valid(&self) -> bool {
        &&& self.benchmark_runs >= 1
        &&& self.ratio_priority_milli <= 1000
    }
}

impl Default for TunerConfig {
    /// Three runs per candidate, thirty candidates, no time budget, ratio
    /// and speed weighted equally, unseeded order, parallel evaluation.
    fn default() -> (r: Self)
        ensures
            r.benchmark_runs == 3,
            r.max_tuning_time_nanos is None,
            r.max_iterations == 30,
            r.ratio_priority_milli == 500,
            r.random_seed is None,
            r.parallel == true,
            r.valid(),
    {
        TunerConfig {
            benchmark_runs: 3,
            max_tuning_time_nanos: None,
            max_iterations: 30,
            ratio_priority_milli: 500,
            random_seed: None,
            parallel: true,
        }
    }
}

/// Optimal parameters found by the tuner.
#[derive(Debug, Clone)]
pub struct TuningResult {
    /// The best parameters found.
    pub best_parameters: CompressionParameters,
    /// The benchmark result for the best parameters.
    pub best_result: BenchmarkResult,
    /// All benchmark results evaluated during tuning.
    pub all_results: Vec<BenchmarkResult>,
    /// Parameters optimized for best ratio, regardless of speed.
    pub best_ratio_parameters: CompressionParameters,
    /// Parameters optimized for best speed, regardless of ratio.
    pub best_speed_parameters: CompressionParameters,
    /// How long the tuning run took, in nanoseconds.
    pub tuning_time_nanos: u64,
    /// How many candidates were evaluated.
    pub iterations: usize,
}

/// The best parameters found for one asset category.
#[derive(Debug, Clone, Copy)]
pub struct AssetProfile {
    /// The asset category.
    pub asset_type: AssetType,
    /// The parameters recommended for it.
    pub parameters: CompressionParameters,
}

/// The window size at one index of the declared window-size set.
pub open spec fn space_window_at(k: int) -> usize {
    if k == 0 {
        256
    } else if k == 1 {
        512
    } else if k == 2 {
        1024
    } else if k == 3 {
        2048
    } else if k == 4 {
        4096
    } else if k == 5 {
        8192
    } else if k == 6 {
        16384
    } else if k == 7 {
        32768
    } else {
        65535
    }
}

/// The minimum match length at one index of the declared set.
pub open spec fn space_min_match_at(k: int) -> usize {
    if k == 0 {
        2
    } else if k == 1 {
        3
    } else if k == 2 {
        4
    } else if k == 3 {
        5
    } else if k == 4 {
        6
    } else {
        8
    }
}

/// The full 54-point cross product of the declared window sizes and
/// minimum match lengths, in canonical order.
pub open spec fn full_parameter_space() -> Seq<CompressionParameters> {
    Seq::new(
        54,
        |i: int|
            CompressionParameters {
                window_size: space_window_at(i / 6),
                min_match_length: space_min_match_at(i % 6),
            },
    )
}

/// The parameter sets of a list of benchmarked candidates.
pub open spec fn tested_params(
    tested: Seq<(CompressionParameters, BenchmarkResult)>,
) -> Set<CompressionParameters> {
    Set::new(
        |p: CompressionParameters|
            exists|j: int| 0 <= j < tested.len() && (#[trigger] tested[j]).0 == p,
    )
}

/// How many candidates a front-to-back walk of `space` evaluates when
/// everything in `seen` is skipped and no value is evaluated twice.
pub open spec fn fresh_candidates(
    space: Seq<CompressionParameters>,
    seen: Set<CompressionParameters>,
) -> nat
    decreases space.len(),
{
    if space.len() == 0 {
        0
    } else {
        (if seen.contains(space[0]) {
            0nat
        } else {
            1nat
        }) + fresh_candidates(space.drop_first(), seen.insert(space[0]))
    }
}

/// An injective integer encoding of a parameter set, for naming orders.
pub open spec fn param_code(p: CompressionParameters) -> int {
    p.window_size * 0x100000000 + p.min_match_length
}

/// The order in which a seeded shuffle leaves a sequence of parameter
/// codes.  rand's algorithm draws its swaps from the seeded generator
/// alone, so this is a function of the sequence and the seed; naming it
/// makes a seeded search order reproducible in contracts.
pub uninterp spec fn shuffled_codes(codes: Seq<int>, seed: u64) -> Seq<int>;

/// Some asset of category `t` occurs in the list.
pub open spec fn type_present(assets: Seq<AssetInfo>, t: AssetType) -> bool {
    exists|i: int| 0 <= i < assets.len() && (#[trigger] assets[i]).asset_type == t
}

/// Some profile for category `t` occurs in the list.
pub open spec fn type_profiled(profiles: Seq<AssetProfile>, t: AssetType) -> bool {
    exists|j: int| 0 <= j < profiles.len() && (#[trigger] profiles[j]).asset_type == t
}

/// Sum of the assets' byte counts, saturating at the machine word as the
/// aggregating additions do.
pub open spec fn sizes_sum(assets: Seq<AssetInfo>) -> nat
    decreases assets.len(),
{
    if assets.len() == 0 {
        0
    } else {
        let rest = sizes_sum(assets.drop_last());
        if rest + assets.last().data@.len() > usize::MAX {
            usize::MAX as nat
        } else {
            rest + assets.last().data@.len()
        }
    }
}

/// Sum of the per-asset compressed sizes, saturating at the machine word
/// as the aggregating additions do.
pub open spec fn compressed_sum(results: Seq<BenchmarkResult>) -> nat
    decreases results.len(),
{
    if results.len() == 0 {
        0
    } else {
        let rest = compressed_sum(results.drop_last());
        if rest + results.last().compressed_size > usize::MAX {
            usize::MAX as nat
        } else {
            (rest + results.last().compressed_size) as nat
        }
    }
}

/// What a stored multi-asset record aggregates: the original size is the
/// (saturating) sum of the assets' sizes, and the compressed size is the
/// (saturating) sum of per-asset compressed sizes, one benchmark record
/// per asset, each of which the codec's contracts achieve.
pub open spec fn aggregate_record_ok(
    params: CompressionParameters,
    record: BenchmarkResult,
    assets: Seq<AssetInfo>,
) -> bool {
    &&& record.original_size == sizes_sum(assets)
    &&& record.parameters == params
    &&& exists|rs: Seq<BenchmarkResult>|
        #![auto]
        {
            &&& rs.len() == assets.len()
            &&& (forall|k: int|
                0 <= k < rs.len() ==> spec_benchmark_record(rs[k], assets[k].data@, params))
            &&& record.compressed_size == compressed_sum(rs)
        }
}

/// Benchmarking one more candidate extends the seen set by its parameters.
proof fn lemma_tested_params_push(
    tested: Seq<(CompressionParameters, BenchmarkResult)>,
    e: (CompressionParameters, BenchmarkResult),
)
    ensures
        tested_params(tested.push(e)) =~= tested_params(tested).insert(e.0),
{
    assert forall|p: CompressionParameters| tested_params(tested.push(e)).contains(p) implies
        tested_params(tested).insert(e.0).contains(p) by {
        let j = choose|j: int| 0 <= j < tested.push(e).len() && (#[trigger] tested.push(e)[j]).0
            == p;
        if j < tested.len() {
            assert(tested[j].0 == p);
        }
    }
    assert forall|p: CompressionParameters| tested_params(tested).insert(e.0).contains(p) implies
        tested_params(tested.push(e)).contains(p) by {
        if p == e.0 {
            assert(tested.push(e)[tested.len() as int].0 == p);
        } else {
            let j = choose|j: int| 0 <= j < tested.len() && (#[trigger] tested[j]).0 == p;
            assert(tested.push(e)[j].0 == p);
        }
    }
}

/// The window sizes the search space is built from.
pub open spec fn is_space_window(w: usize) -> bool {
    w == 256 || w == 512 || w == 1024 || w == 2048 || w == 4096 || w == 8192 || w == 16384 || w
        == 32768 || w == 65535
}

/// The minimum match lengths the search space is built from.
pub open spec fn is_space_min_match(m: usize) -> bool {
    m == 2 || m == 3 || m == 4 || m == 5 || m == 6 || m == 8
}

/// Membership in the declared parameter space.
pub open spec fn in_parameter_space(p: CompressionParameters) -> bool {
    is_space_window(p.window_size) && is_space_min_match(p.min_match_length)
}

/// Every point of the space configures a codec whose contracts hold.
pub proof fn lemma_space_param_valid(p: CompressionParameters)
    requires
        in_parameter_space(p),
    ensures
        p.valid(),
{
}

/// Relies on rand's `SliceRandom::shuffle` with a `StdRng` seeded from
/// `seed`: a Fisher-Yates pass of in-bounds swaps, so the slice is permuted
/// in place — it keeps its length and every element it ends up with was
/// already there.  The swaps are drawn from the seeded generator alone, so
/// the resulting order is a function of the slice and the seed, recorded
/// under the name `shuffled_codes`.
#[verifier::external_body]
fn shuffle_seeded(v: &mut Vec<CompressionParameters>, seed: u64)
    ensures
        final (v)@.len() == old(v)@.len(),
        final (v)@.to_multiset() == old(v)@.to_multiset(),
        forall|i: int| 0 <= i < final (v)@.len() ==> old(v)@.contains(final (v)@[i]),
        final (v)@.map_values(|p: CompressionParameters| param_code(p)) == shuffled_codes(
            old(v)@.map_values(|p: CompressionParameters| param_code(p)),
            seed,
        ),
{
    let mut rng = rand::rngs::StdRng::seed_from_u64(seed);
    v.shuffle(&mut rng);
}

/// Relies on rand's `SliceRandom::shuffle` with `thread_rng`: the slice is
/// permuted in place, so it keeps its length and every element it ends up
/// with was already there.
#[verifier::external_body]
fn shuffle_unseeded(v: &mut Vec<CompressionParameters>)
    ensures
        final (v)@.len() == old(v)@.len(),
        final (v)@.to_multiset() == old(v)@.to_multiset(),
        forall|i: int| 0 <= i < final (v)@.len() ==> old(v)@.contains(final (v)@[i]),
{
    let mut rng = rand::thread_rng();
    v.shuffle(&mut rng);
}

/// Relies on rand's `SliceRandom::choose_multiple`: a random sample,
/// without repetition, of `min(k, n)` of the indices below `n`.
#[verifier::external_body]
fn sample_indices(n: usize, k: usize) -> (r: Vec<usize>)
    ensures
        r@.len() == if k <= n {
            k as int
        } else {
            n as int
        },
        forall|i: int| 0 <= i < r@.len() ==> r@[i] < n,
{
    let all: Vec<usize> = (0..n).collect();
    let mut rng = rand::thread_rng();
    all.choose_multiple(&mut rng, k).cloned().collect()
}

/// Relies on rayon's `par_iter`/`map`/`collect`, which apply the closure to
/// every element and keep order: element `i` of the result is exactly what
/// the verified `run_benchmark` returns for asset `i`, so its ensures are
/// that function's postconditions, instantiated per element.
#[verifier::external_body]
fn par_run_benchmarks(
    assets: &Vec<AssetInfo>,
    parameters: CompressionParameters,
    runs: usize,
) -> (r: Vec<BenchmarkResult>)
    requires
        runs >= 1,
        parameters.valid(),
        forall|i: int| 0 <= i < assets@.len() ==> assets@[i].data@.len() < 4294967296,
    ensures
        r@.len() == assets@.len(),
        forall|i: int|
            0 <= i < r@.len() ==> spec_benchmark_record(
                #[trigger] r@[i],
                assets@[i].data@,
                parameters,
            ),
        forall|i: int|
            0 <= i < r@.len() ==> (#[trigger] r@[i]).asset_info is Some
                && r@[i].asset_info->Some_0@ == spec_asset_label(assets@[i]),
{
    assets.par_iter().map(|a| run_benchmark(a.data(), parameters, Some(a), runs)).collect()
}

/// Parameter tuner for finding optimal LZSS parameters.
pub struct Tuner {
    config: TunerConfig,
    results: Vec<BenchmarkResult>,
    best_score: u64,
    best_parameters: Option<CompressionParameters>,
    best_ratio: u64,
    best_ratio_parameters: Option<CompressionParameters>,
    best_speed: u64,
    best_speed_parameters: Option<CompressionParameters>,
    parameter_space: Vec<CompressionParameters>,
    tested_parameters: Vec<(CompressionParameters, BenchmarkResult)>,
    scores: Ghost<Seq<(u64, u64, u64)>>,
}

impl Tuner {
    /// The tuner's configuration.
    pub closed spec fn spec_config(&self) -> TunerConfig {
        self.config
    }

    /// The candidates still in the search space.
    pub closed spec fn spec_space(&self) -> Seq<CompressionParameters> {
        self.parameter_space@
    }

    /// The candidates benchmarked in this tuner's lifetime, with their
    /// results.
    pub closed spec fn spec_tested(&self) -> Seq<(CompressionParameters, BenchmarkResult)> {
        self.tested_parameters@
    }

    /// The (ratio, speed, combined score) figures each benchmarked
    /// candidate was tracked under.
    pub closed spec fn spec_scores(&self) -> Seq<(u64, u64, u64)> {
        self.scores@
    }

    /// The collected result records.
    pub closed spec fn spec_results(&self) -> Seq<BenchmarkResult> {
        self.results@
    }

    pub closed spec fn spec_best_parameters(&self) -> Option<CompressionParameters> {
        self.best_parameters
    }

    pub closed spec fn spec_best_ratio_parameters(&self) -> Option<CompressionParameters> {
        self.best_ratio_parameters
    }

    pub closed spec fn spec_best_speed_parameters(&self) -> Option<CompressionParameters> {
        self.best_speed_parameters
    }

    pub closed spec fn spec_best_score(&self) -> u64 {
        self.best_score
    }

    pub closed spec fn spec_best_ratio(&self) -> u64 {
        self.best_ratio
    }

    pub closed spec fn spec_best_speed(&self) -> u64 {
        self.best_speed
    }

    /// All three best-so-far trackers hold a value.
    pub open spec fn has_winners(&self) -> bool {
        &&& self.spec_best_parameters() is Some
        &&& self.spec_best_ratio_parameters() is Some
        &&& self.spec_best_speed_parameters() is Some
    }

    /// The parameters already benchmarked include `p`.
    pub closed spec fn spec_tested_has(&self, p: CompressionParameters) -> bool {
        exists|j: int|
            0 <= j < self.tested_parameters@.len() && (#[trigger] self.tested_parameters@[j]).0
                == p
    }

    /// Nothing has been benchmarked or tracked yet: the record is empty
    /// and every tracker is unset.
    pub open spec fn fresh(&self) -> bool {
        &&& self.spec_tested().len() == 0
        &&& self.spec_results().len() == 0
        &&& self.spec_scores().len() == 0
        &&& self.spec_best_parameters() is None
        &&& self.spec_best_ratio_parameters() is None
        &&& self.spec_best_speed_parameters() is None
        &&& self.spec_best_score() == 0
        &&& self.spec_best_ratio() == u64::MAX
        &&& self.spec_best_speed() == 0
    }

    /// The tuner's invariant: a runnable configuration; a search space
    /// inside the declared parameter space; one recorded score triple and
    /// one collected record per benchmarked candidate, no candidate
    /// benchmarked twice; and best-so-far trackers that hold exactly the
    /// optima of the recorded scores, replaced only on strict improvement.
    pub closed spec fn wf(&self) -> bool {
        let tested = self.tested_parameters@;
        let scores = self.scores@;
        let prio = self.config.ratio_priority_milli as nat;
        &&& self.config.valid()
        &&& forall|i: int|
            0 <= i < self.parameter_space@.len() ==> in_parameter_space(
                #[trigger] self.parameter_space@[i],
            )
        &&& scores.len() == tested.len()
        &&& self.results@.len() == tested.len()
        &&& forall|j: int|
            0 <= j < tested.len() ==> (#[trigger] tested[j]).1.parameters == tested[j].0
                && in_parameter_space(tested[j].0)
        &&& forall|j: int|
            0 <= j < tested.len() ==> result_matches(#[trigger] self.results@[j], tested[j].1)
        &&& forall|i: int, j: int| 0 <= i < j < tested.len() ==> tested[i].0 != tested[j].0
        &&& forall|j: int|
            0 <= j < tested.len() ==> (#[trigger] scores[j]).2 == spec_result_combined(
                tested[j].1,
                scores[j].1 as nat,
                prio,
            )
        &&& forall|j: int| 0 <= j < tested.len() ==> (#[trigger] scores[j]).2 <= self.best_score
        &&& (self.best_parameters is None ==> self.best_score == 0)
        &&& (self.best_parameters is Some ==> in_parameter_space(self.best_parameters->Some_0)
            && self.best_score > 0 && exists|j: int|
            0 <= j < tested.len() && (#[trigger] tested[j]).0 == self.best_parameters->Some_0
                && scores[j].2 == self.best_score && (forall|k: int|
                0 <= k < j ==> (#[trigger] scores[k]).2 < self.best_score))
        &&& forall|j: int| 0 <= j < tested.len() ==> (#[trigger] scores[j]).0 >= self.best_ratio
        &&& (self.best_ratio_parameters is None ==> self.best_ratio == u64::MAX)
        &&& (self.best_ratio_parameters is Some ==> in_parameter_space(
            self.best_ratio_parameters->Some_0,
        ) && self.best_ratio < u64::MAX && exists|j: int|
            0 <= j < tested.len() && (#[trigger] tested[j]).0 == self.best_ratio_parameters->Some_0
                && scores[j].0 == self.best_ratio && (forall|k: int|
                0 <= k < j ==> (#[trigger] scores[k]).0 > self.best_ratio))
        &&& forall|j: int| 0 <= j < tested.len() ==> (#[trigger] scores[j]).1 <= self.best_speed
        &&& (self.best_speed_parameters is None ==> self.best_speed == 0)
        &&& (self.best_speed_parameters is Some ==> in_parameter_space(
            self.best_speed_parameters->Some_0,
        ) && self.best_speed > 0 && exists|j: int|
            0 <= j < tested.len() && (#[trigger] tested[j]).0 == self.best_speed_parameters->Some_0
                && scores[j].1 == self.best_speed && (forall|k: int|
                0 <= k < j ==> (#[trigger] scores[k]).1 < self.best_speed))
    }

    /// What the invariant says of the trackers, spelled out for callers:
    /// the best combined score, the best (lowest) ratio, and the best
    /// (highest) speed are optima over the recorded scores, each achieved
    /// by the tracked parameters, and no candidate is recorded twice.
    pub proof fn lemma_tracker_soundness(&self)
        requires
            self.wf(),
        ensures
            self.spec_scores().len() == self.spec_tested().len(),
            self.spec_results().len() == self.spec_tested().len(),
            forall|j: int|
                0 <= j < self.spec_tested().len() ==> (#[trigger] self.spec_tested()[j]).1.parameters
                    == self.spec_tested()[j].0,
            forall|j: int|
                0 <= j < self.spec_tested().len() ==> result_matches(
                    #[trigger] self.spec_results()[j],
                    self.spec_tested()[j].1,
                ),
            forall|i: int, j: int|
                0 <= i < j < self.spec_tested().len() ==> self.spec_tested()[i].0
                    != self.spec_tested()[j].0,
            forall|j: int|
                0 <= j < self.spec_tested().len() ==> (#[trigger] self.spec_scores()[j]).2
                    == spec_result_combined(
                    self.spec_tested()[j].1,
                    self.spec_scores()[j].1 as nat,
                    self.spec_config().ratio_priority_milli as nat,
                ),
            forall|j: int|
                0 <= j < self.spec_tested().len() ==> (#[trigger] self.spec_scores()[j]).2
                    <= self.spec_best_score(),
            self.spec_best_parameters() is Some ==> exists|j: int|
                0 <= j < self.spec_tested().len() && (#[trigger] self.spec_tested()[j]).0
                    == self.spec_best_parameters()->Some_0 && self.spec_scores()[j].2
                    == self.spec_best_score() && (forall|k: int|
                    0 <= k < j ==> (#[trigger] self.spec_scores()[k]).2 < self.spec_best_score()),
            forall|j: int|
                0 <= j < self.spec_tested().len() ==> (#[trigger] self.spec_scores()[j]).0
                    >= self.spec_best_ratio(),
            self.spec_best_ratio_parameters() is Some ==> exists|j: int|
                0 <= j < self.spec_tested().len() && (#[trigger] self.spec_tested()[j]).0
                    == self.spec_best_ratio_parameters()->Some_0 && self.spec_scores()[j].0
                    == self.spec_best_ratio() && (forall|k: int|
                    0 <= k < j ==> (#[trigger] self.spec_scores()[k]).0 > self.spec_best_ratio()),
            forall|j: int|
                0 <= j < self.spec_tested().len() ==> (#[trigger] self.spec_scores()[j]).1
                    <= self.spec_best_speed(),
            self.spec_best_speed_parameters() is Some ==> exists|j: int|
                0 <= j < self.spec_tested().len() && (#[trigger] self.spec_tested()[j]).0
                    == self.spec_best_speed_parameters()->Some_0 && self.spec_scores()[j].1
                    == self.spec_best_speed() && (forall|k: int|
                    0 <= k < j ==> (#[trigger] self.spec_scores()[k]).1 < self.spec_best_speed()),
    {
    }

    /// Build the full 54-candidate space — the cross product of the
    /// declared window sizes and minimum match lengths — shuffled by the
    /// given seed, or unseeded.
    fn build_parameter_space(random_seed: Option<u64>) -> (r: Vec<CompressionParameters>)
        ensures
            r@.len() == 54,
            forall|i: int| 0 <= i < r@.len() ==> in_parameter_space(#[trigger] r@[i]),
            r@.to_multiset() == full_parameter_space().to_multiset(),
            random_seed is Some ==> r@.map_values(|p: CompressionParameters| param_code(p))
                == shuffled_codes(
                full_parameter_space().map_values(|p: CompressionParameters| param_code(p)),
                random_seed->Some_0,
            ),
    {
        let mut windows: Vec<usize> = Vec::new();
        windows.push(256);
        windows.push(512);
        windows.push(1024);
        windows.push(2048);
        windows.push(4096);
        windows.push(8192);
        windows.push(16384);
        windows.push(32768);
        windows.push(65535);
        let mut min_matches: Vec<usize> = Vec::new();
        min_matches.push(2);
        min_matches.push(3);
        min_matches.push(4);
        min_matches.push(5);
        min_matches.push(6);
        min_matches.push(8);
        proof {
            assert(forall|k: int|
                0 <= k < windows@.len() ==> #[trigger] windows@[k] == space_window_at(k));
            assert(forall|k: int|
                0 <= k < min_matches@.len() ==> #[trigger] min_matches@[k] == space_min_match_at(
                    k,
                ));
        }

        let mut parameter_space: Vec<CompressionParameters> = Vec::new();
        let mut wi: usize = 0;
        while wi < windows.len()
            invariant
                wi <= windows@.len(),
                windows@.len() == 9,
                min_matches@.len() == 6,
                forall|k: int|
                    0 <= k < windows@.len() ==> #[trigger] windows@[k] == space_window_at(k),
                forall|k: int|
                    0 <= k < min_matches@.len() ==> #[trigger] min_matches@[k]
                        == space_min_match_at(k),
                parameter_space@.len() == wi * 6,
                forall|i: int|
                    0 <= i < parameter_space@.len() ==> #[trigger] parameter_space@[i]
                        == full_parameter_space()[i],
            decreases windows@.len() - wi,
        {
            let mut mi: usize = 0;
            while mi < min_matches.len()
                invariant
                    wi < windows@.len(),
                    mi <= min_matches@.len(),
                    windows@.len() == 9,
                    min_matches@.len() == 6,
                    forall|k: int|
                        0 <= k < windows@.len() ==> #[trigger] windows@[k] == space_window_at(k),
                    forall|k: int|
                        0 <= k < min_matches@.len() ==> #[trigger] min_matches@[k]
                            == space_min_match_at(k),
                    parameter_space@.len() == wi * 6 + mi,
                    forall|i: int|
                        0 <= i < parameter_space@.len() ==> #[trigger] parameter_space@[i]
                            == full_parameter_space()[i],
                decreases min_matches@.len() - mi,
            {
                let n = parameter_space.len();
                parameter_space.push(CompressionParameters::new(windows[wi], min_matches[mi]));
                proof {
                    vstd::arithmetic::div_mod::lemma_fundamental_div_mod_converse(
                        n as int,
                        6,
                        wi as int,
                        mi as int,
                    );
                    assert(parameter_space@[n as int] == full_parameter_space()[n as int]);
                }
                mi = mi + 1;
            }
            wi = wi + 1;
        }
        proof {
            assert(parameter_space@ =~= full_parameter_space());
            assert(forall|i: int|
                0 <= i < parameter_space@.len() ==> in_parameter_space(
                    #[trigger] parameter_space@[i],
                ));
        }

        let ghost unshuffled = parameter_space@;
        match random_seed {
            Option::Some(seed) => shuffle_seeded(&mut parameter_space, seed),
            Option::None => shuffle_unseeded(&mut parameter_space),
        }
        proof {
            assert forall|i: int|
                0 <= i < parameter_space@.len() implies in_parameter_space(
                #[trigger] parameter_space@[i],
            ) by {
                let j = choose|j: int| 0 <= j < unshuffled.len() && unshuffled[j]
                    == parameter_space@[i];
            }
        }
        parameter_space
    }

    /// Create a tuner whose search space is the full cross product of the
    /// declared window sizes and minimum match lengths, in an order
    /// shuffled by the configured seed, or unseeded, with every tracker
    /// empty.
    pub fn new(config: TunerConfig) -> (r: Self)
        requires
            config.valid(),
        ensures
            r.wf(),
            r.fresh(),
            r.spec_config() == config,
            r.spec_space().len() == 54,
            r.spec_space().to_multiset() == full_parameter_space().to_multiset(),
            config.random_seed is Some ==> r.spec_space().map_values(
                |p: CompressionParameters| param_code(p),
            ) == shuffled_codes(
                full_parameter_space().map_values(|p: CompressionParameters| param_code(p)),
                config.random_seed->Some_0,
            ),
    {
        let parameter_space = Self::build_parameter_space(config.random_seed);
        Tuner {
            config,
            results: Vec::new(),
            best_score: 0,
            best_parameters: None,
            best_ratio: u64::MAX,
            best_ratio_parameters: None,
            best_speed: 0,
            best_speed_parameters: None,
            parameter_space,
            tested_parameters: Vec::new(),
            scores: Ghost(Seq::empty()),
        }
    }

    /// Whether these parameters were already benchmarked in this run.
    fn already_tested(&self, p: &CompressionParameters) -> (r: bool)
        ensures
            r == self.spec_tested_has(*p),
    {
        let mut j: usize = 0;
        while j < self.tested_parameters.len()
            invariant
                j <= self.tested_parameters@.len(),
                forall|k: int| 0 <= k < j ==> (#[trigger] self.tested_parameters@[k]).0 != *p,
            decreases self.tested_parameters@.len() - j,
        {
            if self.tested_parameters[j].0 == *p {
                return true;
            }
            j = j + 1;
        }
        false
    }

    /// A copy of the stored result for already-benchmarked parameters, if
    /// any.
    fn find_tested(&self, p: &CompressionParameters) -> (r: Option<BenchmarkResult>)
        ensures
            r is Some <==> self.spec_tested_has(*p),
            r is Some ==> exists|j: int|
                0 <= j < self.spec_tested().len() && (#[trigger] self.spec_tested()[j]).0 == *p
                    && result_matches(r->Some_0, self.spec_tested()[j].1),
    {
        let mut j: usize = 0;
        while j < self.tested_parameters.len()
            invariant
                j <= self.tested_parameters@.len(),
                forall|k: int| 0 <= k < j ==> (#[trigger] self.tested_parameters@[k]).0 != *p,
            decreases self.tested_parameters@.len() - j,
        {
            if self.tested_parameters[j].0 == *p {
                let found = self.tested_parameters[j].1.clone();
                proof {
                    assert((#[trigger] self.spec_tested()[j as int]).0 == *p && result_matches(
                        found,
                        self.spec_tested()[j as int].1,
                    ));
                }
                return Some(found);
            }
            j = j + 1;
        }
        None
    }

    /// Fold one evaluated candidate into the three best-so-far trackers
    /// and the result lists, using the configured ratio/speed priority:
    /// each tracker replaces its value only on strict improvement.
    fn track_candidate(
        &mut self,
        params: CompressionParameters,
        result: BenchmarkResult,
        ratio: u64,
        speed: u64,
    )
        requires
            old(self).wf(),
            in_parameter_space(params),
            !old(self).spec_tested_has(params),
            result.parameters == params,
        ensures
            final (self).wf(),
            final (self).spec_config() == old(self).spec_config(),
            final (self).spec_space() == old(self).spec_space(),
            final (self).spec_tested() == old(self).spec_tested().push((params, result)),
            final (self).spec_scores() == old(self).spec_scores().push(
                (
                    ratio,
                    speed,
                    spec_result_combined(
                        result,
                        speed as nat,
                        old(self).spec_config().ratio_priority_milli as nat,
                    ) as u64,
                ),
            ),
    {
        let ratio_score = result.compression_ratio_score_milli();
        let speed_score = speed / 100;
        let prio = self.config.ratio_priority_milli;
        proof {
            assert(self.config.valid());
            assert(prio <= 1000);
            assert(prio as u128 * ratio_score as u128 <= 1000 * (u64::MAX as u128))
                by (nonlinear_arith)
                requires
                    prio <= 1000,
                    ratio_score <= u64::MAX,
            ;
            assert((1000 - prio) as u128 * speed_score as u128 <= 1000 * (u64::MAX as u128))
                by (nonlinear_arith)
                requires
                    prio <= 1000,
                    speed_score <= u64::MAX,
            ;
        }
        let combined = sat64(
            (prio as u128 * ratio_score as u128 + (1000 - prio) as u128 * speed_score as u128)
                / 1000,
        );
        proof {
            assert(combined == spec_result_combined(result, speed as nat, prio as nat));
        }
        let ghost tested0 = self.tested_parameters@;
        let ghost scores0 = self.scores@;

        self.results.push(result.clone());
        self.tested_parameters.push((params, result));
        proof {
            self.scores@ = self.scores@.push((ratio, speed, combined));
        }

        if combined > self.best_score {
            self.best_score = combined;
            self.best_parameters = Some(params);
        }
        if ratio < self.best_ratio {
            self.best_ratio = ratio;
            self.best_ratio_parameters = Some(params);
        }
        if speed > self.best_speed {
            self.best_speed = speed;
            self.best_speed_parameters = Some(params);
        }
        proof {
            let ts = self.tested_parameters@;
            let sc = self.scores@;
            let n = tested0.len() as int;
            assert(ts.len() == tested0.len() + 1);
            assert(forall|k: int| 0 <= k < tested0.len() ==> ts[k] == #[trigger] tested0[k]);
            assert(forall|k: int| 0 <= k < scores0.len() ==> sc[k] == #[trigger] scores0[k]);
            assert(ts[n] == (params, result));
            assert(sc[n] == (ratio, speed, combined));
            // the new entry is distinct from every earlier one
            assert forall|i: int, j: int| 0 <= i < j < ts.len() implies ts[i].0 != ts[j].0 by {
                if j == n {
                    assert(tested0[i].0 == ts[i].0);
                }
            }
            // each tracker either kept its optimum or took the new entry
            if self.best_parameters is Some {
                let bp = self.best_parameters->Some_0;
                if bp == params && self.best_score == combined {
                    assert(ts[n].0 == bp && sc[n].2 == self.best_score);
                } else {
                    assert(old(self).spec_best_parameters() is Some);
                    let j = choose|j: int|
                        0 <= j < tested0.len() && (#[trigger] tested0[j]).0 == old(
                            self,
                        ).spec_best_parameters()->Some_0 && scores0[j].2 == old(
                            self,
                        ).spec_best_score() && (forall|k: int|
                            0 <= k < j ==> (#[trigger] scores0[k]).2 < old(
                                self,
                            ).spec_best_score());
                    assert(ts[j].0 == self.best_parameters->Some_0 && sc[j].2 == self.best_score
                        && (forall|k: int| 0 <= k < j ==> (#[trigger] sc[k]).2 < self.best_score));
                }
            }
            if self.best_ratio_parameters is Some {
                let bp = self.best_ratio_parameters->Some_0;
                if bp == params && self.best_ratio == ratio {
                    assert(ts[n].0 == bp && sc[n].0 == self.best_ratio);
                } else {
                    assert(old(self).spec_best_ratio_parameters() is Some);
                    let j = choose|j: int|
                        0 <= j < tested0.len() && (#[trigger] tested0[j]).0 == old(
                            self,
                        ).spec_best_ratio_parameters()->Some_0 && scores0[j].0 == old(
                            self,
                        ).spec_best_ratio() && (forall|k: int|
                            0 <= k < j ==> (#[trigger] scores0[k]).0 > old(
                                self,
                            ).spec_best_ratio());
                    assert(ts[j].0 == self.best_ratio_parameters->Some_0 && sc[j].0
                        == self.best_ratio && (forall|k: int|
                        0 <= k < j ==> (#[trigger] sc[k]).0 > self.best_ratio));
                }
            }
            if self.best_speed_parameters is Some {
                let bp = self.best_speed_parameters->Some_0;
                if bp == params && self.best_speed == speed {
                    assert(ts[n].0 == bp && sc[n].1 == self.best_speed);
                } else {
                    assert(old(self).spec_best_speed_parameters() is Some);
                    let j = choose|j: int|
                        0 <= j < tested0.len() && (#[trigger] tested0[j]).0 == old(
                            self,
                        ).spec_best_speed_parameters()->Some_0 && scores0[j].1 == old(
                            self,
                        ).spec_best_speed() && (forall|k: int|
                            0 <= k < j ==> (#[trigger] scores0[k]).1 < old(
                                self,
                            ).spec_best_speed());
                    assert(ts[j].0 == self.best_speed_parameters->Some_0 && sc[j].1
                        == self.best_speed && (forall|k: int|
                        0 <= k < j ==> (#[trigger] sc[k]).1 < self.best_speed));
                }
            }
        }
    }

    /// Tune parameters for a single data buffer: walk the shuffled space,
    /// skip anything already benchmarked, benchmark each new candidate, and
    /// keep the three optima; stop at the iteration budget, the end of the
    /// space, or (checked only between candidates) the time budget.
    ///
    /// Without a time budget the number of evaluations is exactly the
    /// number of distinct not-yet-benchmarked candidates in the space,
    /// capped at the iteration budget; with one, at least one candidate is
    /// evaluated whenever any is available.  The trackers' optimality over
    /// the evaluated candidates is `lemma_tracker_soundness`, reachable
    /// from the ensured invariant.
    pub fn tune_for_data(&mut self, data: &Vec<u8>, asset: Option<&AssetInfo>) -> (r: TuningResult)
        requires
            old(self).wf(),
            data@.len() < 4294967296,
        ensures
            final (self).wf(),
            final (self).spec_config() == old(self).spec_config(),
            final (self).spec_space() == old(self).spec_space(),
            // the evaluations of this run extend the tuner's record
            final (self).spec_tested().len() == old(self).spec_tested().len() + r.iterations,
            forall|j: int|
                0 <= j < old(self).spec_tested().len() ==> final (self).spec_tested()[j] == old(
                    self,
                ).spec_tested()[j] && final (self).spec_scores()[j] == old(self).spec_scores()[j],
            // each one benchmarked this buffer at a declared point, scored
            // as an integer function of its record
            forall|j: int|
                old(self).spec_tested().len() <= j < final (self).spec_tested().len() ==> {
                    &&& in_parameter_space((#[trigger] final (self).spec_tested()[j]).0)
                    &&& spec_benchmark_record(
                        final (self).spec_tested()[j].1,
                        data@,
                        final (self).spec_tested()[j].0,
                    )
                    &&& final (self).spec_scores()[j].0 == spec_result_ratio(
                        final (self).spec_tested()[j].1,
                    )
                    &&& final (self).spec_scores()[j].1 == spec_result_speed(
                        final (self).spec_tested()[j].1,
                    )
                },
            // how many candidates are evaluated
            r.iterations <= old(self).spec_config().max_iterations,
            r.iterations <= old(self).spec_space().len(),
            old(self).spec_config().max_tuning_time_nanos is None ==> r.iterations as int == (
            if fresh_candidates(old(self).spec_space(), tested_params(old(self).spec_tested()))
                <= old(self).spec_config().max_iterations {
                fresh_candidates(
                    old(self).spec_space(),
                    tested_params(old(self).spec_tested()),
                ) as int
            } else {
                old(self).spec_config().max_iterations as int
            }),
            r.iterations == 0 ==> old(self).spec_config().max_iterations == 0 || fresh_candidates(
                old(self).spec_space(),
                tested_params(old(self).spec_tested()),
            ) == 0,
            // what the caller receives
            in_parameter_space(r.best_parameters),
            in_parameter_space(r.best_ratio_parameters),
            in_parameter_space(r.best_speed_parameters),
            final (self).has_winners() ==> {
                &&& r.best_parameters == final (self).spec_best_parameters()->Some_0
                &&& r.best_ratio_parameters == final (self).spec_best_ratio_parameters()->Some_0
                &&& r.best_speed_parameters == final (self).spec_best_speed_parameters()->Some_0
                &&& r.all_results@.len() == final (self).spec_tested().len()
                &&& forall|j: int|
                    0 <= j < r.all_results@.len() ==> result_matches(
                        #[trigger] r.all_results@[j],
                        final (self).spec_tested()[j].1,
                    )
                &&& exists|j: int|
                    0 <= j < final (self).spec_tested().len()
                        && (#[trigger] final (self).spec_tested()[j]).0 == r.best_parameters
                        && result_matches(r.best_result, final (self).spec_tested()[j].1)
            },
            !final (self).has_winners() ==> {
                &&& r.best_parameters == (CompressionParameters {
                    window_size: 4096,
                    min_match_length: 3,
                })
                &&& r.best_ratio_parameters == r.best_parameters
                &&& r.best_speed_parameters == r.best_parameters
                &&& r.all_results@.len() == 0
            },
    {
        let start = clock_now();
        let mut iterations: usize = 0;
        let mut i: usize = 0;
        let ghost space0 = self.spec_space();
        let ghost config0 = self.spec_config();
        let ghost tested0 = self.spec_tested();
        let ghost scores_init = self.spec_scores();
        let ghost seen0 = tested_params(tested0);
        let ghost total = fresh_candidates(space0, seen0);
        let mut budget_break: bool = false;
        proof {
            assert(space0.skip(0) =~= space0);
        }
        loop
            invariant_except_break
                i <= self.parameter_space@.len(),
                iterations <= i,
                iterations <= self.config.max_iterations,
                !budget_break,
                iterations + fresh_candidates(
                    space0.skip(i as int),
                    tested_params(self.spec_tested()),
                ) == total,
            invariant
                self.wf(),
                self.spec_space() == space0,
                self.spec_config() == config0,
                data@.len() < 4294967296,
                iterations <= config0.max_iterations,
                iterations <= space0.len(),
                budget_break ==> iterations >= 1 && config0.max_tuning_time_nanos is Some,
                self.spec_tested().len() == tested0.len() + iterations,
                forall|j: int|
                    0 <= j < tested0.len() ==> self.spec_tested()[j] == #[trigger] tested0[j],
                forall|j: int|
                    0 <= j < tested0.len() ==> self.spec_scores()[j] == #[trigger] scores_init[j],
                forall|j: int|
                    tested0.len() <= j < self.spec_tested().len() ==> {
                        &&& in_parameter_space((#[trigger] self.spec_tested()[j]).0)
                        &&& spec_benchmark_record(
                            self.spec_tested()[j].1,
                            data@,
                            self.spec_tested()[j].0,
                        )
                        &&& self.spec_scores()[j].0 == spec_result_ratio(self.spec_tested()[j].1)
                        &&& self.spec_scores()[j].1 == spec_result_speed(self.spec_tested()[j].1)
                    },
            ensures
                iterations <= config0.max_iterations,
                iterations <= space0.len(),
                budget_break ==> iterations >= 1,
                !budget_break ==> iterations + fresh_candidates(
                    space0.skip(i as int),
                    tested_params(self.spec_tested()),
                ) == total && (i == space0.len() || iterations == config0.max_iterations),
            decreases self.parameter_space@.len() - i,
        {
            if !(i < self.parameter_space.len() && iterations < self.config.max_iterations) {
                break;
            }
            let ghost seen_here = tested_params(self.spec_tested());
            let params = self.parameter_space[i];
            i = i + 1;
            proof {
                assert(space0.skip(i - 1)[0] == params);
                assert(space0.skip(i - 1).drop_first() =~= space0.skip(i as int));
            }
            if !self.already_tested(&params) {
                proof {
                    lemma_space_param_valid(params);
                    assert(!seen_here.contains(params));
                }
                let result = run_benchmark(data, params, asset, self.config.benchmark_runs);
                let ratio = result.compression_ratio_milli();
                let speed = result.speed_milli();
                let ghost tested_pre = self.spec_tested();
                let ghost scores_pre = self.spec_scores();
                self.track_candidate(params, result, ratio, speed);
                proof {
                    let n = tested_pre.len() as int;
                    assert(self.spec_tested().len() == tested_pre.len() + 1);
                    assert(forall|j: int|
                        0 <= j < tested_pre.len() ==> self.spec_tested()[j] == #[trigger] tested_pre[j]);
                    assert(forall|j: int|
                        0 <= j < scores_pre.len() ==> self.spec_scores()[j] == #[trigger] scores_pre[j]);
                    assert(self.spec_tested()[n].0 == params);
                    assert(spec_benchmark_record(self.spec_tested()[n].1, data@, params));
                    assert(self.spec_scores()[n].0 == spec_result_ratio(self.spec_tested()[n].1));
                    assert(self.spec_scores()[n].1 == spec_result_speed(self.spec_tested()[n].1));
                    assert forall|j: int| 0 <= j < tested0.len() implies self.spec_tested()[j]
                        == #[trigger] tested0[j] && self.spec_scores()[j] == scores_init[j] by {
                        assert(tested_pre[j] == tested0[j]);
                        assert(scores_pre[j] == scores_init[j]);
                        assert(self.spec_tested()[j] == tested_pre[j]);
                        assert(self.spec_scores()[j] == scores_pre[j]);
                    }
                    assert forall|j: int|
                        tested0.len() <= j < self.spec_tested().len() implies {
                        &&& in_parameter_space((#[trigger] self.spec_tested()[j]).0)
                        &&& spec_benchmark_record(
                            self.spec_tested()[j].1,
                            data@,
                            self.spec_tested()[j].0,
                        )
                        &&& self.spec_scores()[j].0 == spec_result_ratio(self.spec_tested()[j].1)
                        &&& self.spec_scores()[j].1 == spec_result_speed(self.spec_tested()[j].1)
                    } by {
                        if j < n {
                            assert(self.spec_tested()[j] == tested_pre[j]);
                            assert(self.spec_scores()[j] == scores_pre[j]);
                        }
                    }
                    lemma_tested_params_push(tested_pre, self.spec_tested().last());
                    assert(self.spec_tested() == tested_pre.push(self.spec_tested().last()));
                    assert(tested_params(self.spec_tested()) =~= seen_here.insert(params));
                }
                iterations = iterations + 1;

                if let Option::Some(max_time) = self.config.max_tuning_time_nanos {
                    let spent = elapsed_of(&start);
                    if duration_nanos(&spent) >= max_time {
                        budget_break = true;
                        break;
                    }
                }
            } else {
                proof {
                    assert(seen_here.contains(params));
                    assert(seen_here.insert(params) =~= seen_here);
                }
            }
        }
        proof {
            if config0.max_tuning_time_nanos is None {
                assert(!budget_break);
                if i == space0.len() {
                    assert(space0.skip(i as int).len() == 0);
                    assert(iterations == total);
                } else {
                    assert(iterations == config0.max_iterations);
                    assert(total >= iterations);
                }
            }
            if iterations == 0 {
                assert(!budget_break);
                if i == space0.len() {
                    assert(space0.skip(i as int).len() == 0);
                    assert(total == 0);
                } else {
                    assert(config0.max_iterations == 0);
                }
            }
        }
        let spent = elapsed_of(&start);
        self.create_tuning_result(duration_nanos(&spent), iterations)
    }

    /// Tune parameters for a single asset's bytes, with the same contract
    /// as tuning over a plain buffer.
    pub fn tune_for_asset(&mut self, asset: &AssetInfo) -> (r: TuningResult)
        requires
            old(self).wf(),
            asset.data@.len() < 4294967296,
        ensures
            final (self).wf(),
            final (self).spec_config() == old(self).spec_config(),
            final (self).spec_space() == old(self).spec_space(),
            final (self).spec_tested().len() == old(self).spec_tested().len() + r.iterations,
            r.iterations <= old(self).spec_config().max_iterations,
            r.iterations <= old(self).spec_space().len(),
            old(self).spec_config().max_tuning_time_nanos is None ==> r.iterations as int == (
            if fresh_candidates(old(self).spec_space(), tested_params(old(self).spec_tested()))
                <= old(self).spec_config().max_iterations {
                fresh_candidates(
                    old(self).spec_space(),
                    tested_params(old(self).spec_tested()),
                ) as int
            } else {
                old(self).spec_config().max_iterations as int
            }),
            in_parameter_space(r.best_parameters),
            in_parameter_space(r.best_ratio_parameters),
            in_parameter_space(r.best_speed_parameters),
            final (self).has_winners() ==> {
                &&& r.best_parameters == final (self).spec_best_parameters()->Some_0
                &&& r.best_ratio_parameters == final (self).spec_best_ratio_parameters()->Some_0
                &&& r.best_speed_parameters == final (self).spec_best_speed_parameters()->Some_0
                &&& r.all_results@.len() == final (self).spec_tested().len()
            },
            !final (self).has_winners() ==> r.best_parameters == (CompressionParameters {
                window_size: 4096,
                min_match_length: 3,
            }) && r.all_results@.len() == 0,
    {
        self.tune_for_data(asset.data(), Some(asset))
    }

    /// An element-for-element copy of the collected result records.
    fn clone_results(&self) -> (r: Vec<BenchmarkResult>)
        ensures
            r@.len() == self.spec_results().len(),
            forall|j: int|
                0 <= j < r@.len() ==> result_matches(#[trigger] r@[j], self.spec_results()[j]),
    {
        let mut out: Vec<BenchmarkResult> = Vec::new();
        let mut k: usize = 0;
        while k < self.results.len()
            invariant
                k <= self.results@.len(),
                out@.len() == k,
                forall|j: int|
                    0 <= j < k ==> result_matches(#[trigger] out@[j], self.results@[j]),
            decreases self.results@.len() - k,
        {
            out.push(self.results[k].clone());
            k = k + 1;
        }
        out
    }

    /// Build the result for the current best-so-far state; before any
    /// candidate scored, this is the canonical fallback.
    fn create_tuning_result(&self, tuning_time_nanos: u64, iterations: usize) -> (r: TuningResult)
        requires
            self.wf(),
        ensures
            r.iterations == iterations,
            r.tuning_time_nanos == tuning_time_nanos,
            in_parameter_space(r.best_parameters),
            in_parameter_space(r.best_ratio_parameters),
            in_parameter_space(r.best_speed_parameters),
            self.has_winners() ==> {
                &&& r.best_parameters == self.spec_best_parameters()->Some_0
                &&& r.best_ratio_parameters == self.spec_best_ratio_parameters()->Some_0
                &&& r.best_speed_parameters == self.spec_best_speed_parameters()->Some_0
                &&& r.all_results@.len() == self.spec_tested().len()
                &&& forall|j: int|
                    0 <= j < r.all_results@.len() ==> result_matches(
                        #[trigger] r.all_results@[j],
                        self.spec_tested()[j].1,
                    )
                &&& exists|j: int|
                    0 <= j < self.spec_tested().len() && (#[trigger] self.spec_tested()[j]).0
                        == r.best_parameters && result_matches(
                        r.best_result,
                        self.spec_tested()[j].1,
                    )
            },
            !self.has_winners() ==> {
                &&& r.best_parameters == (CompressionParameters {
                    window_size: 4096,
                    min_match_length: 3,
                })
                &&& r.best_ratio_parameters == r.best_parameters
                &&& r.best_speed_parameters == r.best_parameters
                &&& r.all_results@.len() == 0
            },
    {
        if self.best_parameters.is_some() && self.best_ratio_parameters.is_some()
            && self.best_speed_parameters.is_some() {
            let best_params = *self.best_parameters.as_ref().unwrap();
            let best_ratio_params = *self.best_ratio_parameters.as_ref().unwrap();
            let best_speed_params = *self.best_speed_parameters.as_ref().unwrap();
            match self.find_tested(&best_params) {
                Option::Some(best_result) => {
                    let packaged = TuningResult {
                        best_parameters: best_params,
                        best_result,
                        all_results: self.clone_results(),
                        best_ratio_parameters: best_ratio_params,
                        best_speed_parameters: best_speed_params,
                        tuning_time_nanos,
                        iterations,
                    };
                    proof {
                        assert forall|j: int| 0 <= j < packaged.all_results@.len() implies
                            result_matches(
                            #[trigger] packaged.all_results@[j],
                            self.spec_tested()[j].1,
                        ) by {
                            assert(result_matches(packaged.all_results@[j], self.spec_results()[j]));
                            assert(result_matches(self.spec_results()[j], self.spec_tested()[j].1));
                        }
                    }
                    packaged
                },
                Option::None => {
                    // unreachable: the invariant puts every tracked winner
                    // in the benchmarked list
                    proof {
                        assert(self.spec_tested_has(best_params));
                    }
                    self.fallback_result(tuning_time_nanos, iterations)
                },
            }
        } else {
            self.fallback_result(tuning_time_nanos, iterations)
        }
    }

    /// The canonical fallback when nothing was successfully scored:
    /// window 4096, minimum match 3, and an empty measurement.
    fn fallback_result(&self, tuning_time_nanos: u64, iterations: usize) -> (r: TuningResult)
        ensures
            r.best_parameters == (CompressionParameters { window_size: 4096, min_match_length: 3 }),
            r.best_ratio_parameters == r.best_parameters,
            r.best_speed_parameters == r.best_parameters,
            in_parameter_space(r.best_parameters),
            r.all_results@.len() == 0,
            r.iterations == iterations,
            r.tuning_time_nanos == tuning_time_nanos,
    {
        let default_params = CompressionParameters::new(4096, 3);
        TuningResult {
            best_parameters: default_params,
            best_result: BenchmarkResult {
                original_size: 0,
                compressed_size: 0,
                compression_time_nanos: 0,
                decompression_time_nanos: 0,
                parameters: default_params,
                asset_info: None,
            },
            all_results: Vec::new(),
            best_ratio_parameters: default_params,
            best_speed_parameters: default_params,
            tuning_time_nanos,
            iterations,
        }
    }

    /// Tune parameters for a collection of assets: each candidate drawn
    /// from the front of the space is benchmarked over every asset —
    /// serially, or as one fork-join parallel map when configured — and
    /// tracked by the averages of the per-asset metrics.  The stored
    /// record of each candidate aggregates the assets: its original size
    /// is the (saturating) sum of theirs.
    pub fn tune_for_assets(&mut self, assets: &Vec<AssetInfo>) -> (r: TuningResult)
        requires
            old(self).wf(),
            forall|i: int|
                0 <= i < assets@.len() ==> (#[trigger] assets@[i]).data@.len() < 4294967296,
        ensures
            final (self).wf(),
            final (self).spec_config() == old(self).spec_config(),
            final (self).spec_tested().len() == old(self).spec_tested().len() + r.iterations,
            forall|j: int|
                0 <= j < old(self).spec_tested().len() ==> final (self).spec_tested()[j] == old(
                    self,
                ).spec_tested()[j],
            // each candidate evaluated here stored the aggregate of all
            // the assets at a declared point
            forall|j: int|
                old(self).spec_tested().len() <= j < final (self).spec_tested().len() ==> {
                    &&& in_parameter_space((#[trigger] final (self).spec_tested()[j]).0)
                    &&& aggregate_record_ok(
                        final (self).spec_tested()[j].0,
                        final (self).spec_tested()[j].1,
                        assets@,
                    )
                },
            r.iterations <= old(self).spec_config().max_iterations,
            r.iterations <= old(self).spec_space().len(),
            assets@.len() == 0 ==> r.iterations == 0,
            assets@.len() > 0 && r.iterations == 0 ==> old(self).spec_config().max_iterations == 0
                || fresh_candidates(
                old(self).spec_space(),
                tested_params(old(self).spec_tested()),
            ) == 0,
            assets@.len() > 0 && old(self).spec_config().max_tuning_time_nanos is None
                ==> r.iterations as int == (if fresh_candidates(
                old(self).spec_space(),
                tested_params(old(self).spec_tested()),
            ) <= old(self).spec_config().max_iterations {
                fresh_candidates(
                    old(self).spec_space(),
                    tested_params(old(self).spec_tested()),
                ) as int
            } else {
                old(self).spec_config().max_iterations as int
            }),
            in_parameter_space(r.best_parameters),
            in_parameter_space(r.best_ratio_parameters),
            in_parameter_space(r.best_speed_parameters),
            final (self).has_winners() ==> {
                &&& r.best_parameters == final (self).spec_best_parameters()->Some_0
                &&& r.best_ratio_parameters == final (self).spec_best_ratio_parameters()->Some_0
                &&& r.best_speed_parameters == final (self).spec_best_speed_parameters()->Some_0
                &&& r.all_results@.len() == final (self).spec_tested().len()
                &&& forall|j: int|
                    0 <= j < r.all_results@.len() ==> result_matches(
                        #[trigger] r.all_results@[j],
                        final (self).spec_tested()[j].1,
                    )
            },
            !final (self).has_winners() ==> r.best_parameters == (CompressionParameters {
                window_size: 4096,
                min_match_length: 3,
            }) && r.all_results@.len() == 0,
    {
        let start = clock_now();
        let mut iterations: usize = 0;
        let ghost space0 = self.spec_space();
        let ghost config0 = self.spec_config();
        let ghost tested0 = self.spec_tested();
        let ghost seen0 = tested_params(tested0);
        let ghost total = fresh_candidates(space0, seen0);
        let ghost mut consumed: int = 0;
        let mut budget_break: bool = false;
        proof {
            assert(space0.skip(0) =~= space0);
        }
        loop
            invariant_except_break
                !budget_break,
                0 <= consumed <= space0.len(),
                iterations <= consumed,
                iterations <= self.config.max_iterations,
                self.spec_space() == space0.skip(consumed),
                assets@.len() > 0 ==> iterations + fresh_candidates(
                    space0.skip(consumed),
                    tested_params(self.spec_tested()),
                ) == total,
            invariant
                self.wf(),
                self.spec_config() == config0,
                iterations <= config0.max_iterations,
                iterations <= space0.len(),
                budget_break ==> iterations >= 1 && config0.max_tuning_time_nanos is Some,
                assets@.len() == 0 ==> iterations == 0,
                forall|i: int|
                    0 <= i < assets@.len() ==> (#[trigger] assets@[i]).data@.len() < 4294967296,
                self.spec_tested().len() == tested0.len() + iterations,
                forall|j: int|
                    0 <= j < tested0.len() ==> self.spec_tested()[j] == #[trigger] tested0[j],
                forall|j: int|
                    tested0.len() <= j < self.spec_tested().len() ==> {
                        &&& in_parameter_space((#[trigger] self.spec_tested()[j]).0)
                        &&& aggregate_record_ok(
                            self.spec_tested()[j].0,
                            self.spec_tested()[j].1,
                            assets@,
                        )
                    },
            ensures
                iterations <= config0.max_iterations,
                iterations <= space0.len(),
                !budget_break && assets@.len() > 0 ==> iterations + fresh_candidates(
                    space0.skip(consumed),
                    tested_params(self.spec_tested()),
                ) == total && (consumed == space0.len() || iterations
                    == config0.max_iterations),
            decreases self.parameter_space@.len(),
        {
            if !(iterations < self.config.max_iterations && self.parameter_space.len() > 0) {
                break;
            }
            let ghost seen_here = tested_params(self.spec_tested());
            let ghost space_pre = self.parameter_space@;
            let ghost self_pre = *self;
            let params = self.parameter_space.remove(0);
            proof {
                consumed = consumed + 1;
                assert forall|i: int|
                    0 <= i < self.parameter_space@.len() implies in_parameter_space(
                    #[trigger] self.parameter_space@[i],
                ) by {
                    assert(self.parameter_space@[i] == space_pre[i + 1]);
                }
                if self.best_parameters is Some {
                    let bp = self.best_parameters->Some_0;
                    assert(self_pre.spec_tested_has(bp));
                    let j = choose|j: int|
                        0 <= j < self_pre.tested_parameters@.len() && (
                        #[trigger] self_pre.tested_parameters@[j]).0 == bp;
                    assert(self.tested_parameters@[j].0 == bp);
                    assert(self.spec_tested_has(bp));
                }
                assert(self.wf());
                assert(self.spec_space() =~= space0.skip(consumed));
                assert(space0.skip(consumed - 1)[0] == params);
                assert(space0.skip(consumed - 1).drop_first() =~= space0.skip(consumed));
            }
            if !self.already_tested(&params) {
                proof {
                    lemma_space_param_valid(params);
                    assert(!seen_here.contains(params));
                }
                let runs = self.config.benchmark_runs;
                let results: Vec<BenchmarkResult> = if self.config.parallel {
                    par_run_benchmarks(assets, params, runs)
                } else {
                    let mut rs: Vec<BenchmarkResult> = Vec::new();
                    let mut ai: usize = 0;
                    while ai < assets.len()
                        invariant
                            ai <= assets@.len(),
                            rs@.len() == ai,
                            runs >= 1,
                            params.valid(),
                            forall|i: int|
                                0 <= i < assets@.len() ==> (#[trigger] assets@[i]).data@.len()
                                    < 4294967296,
                            forall|k: int|
                                0 <= k < ai ==> spec_benchmark_record(
                                    #[trigger] rs@[k],
                                    assets@[k].data@,
                                    params,
                                ),
                        decreases assets@.len() - ai,
                    {
                        let a = &assets[ai];
                        rs.push(run_benchmark(a.data(), params, Some(a), runs));
                        ai = ai + 1;
                    }
                    rs
                };
                if results.len() > 0 {
                    // averages of the per-asset metrics; sums saturate
                    let mut sum_ratio: u64 = 0;
                    let mut sum_speed: u64 = 0;
                    let mut sum_orig: usize = 0;
                    let mut sum_comp: usize = 0;
                    let mut sum_ct: u64 = 0;
                    let mut sum_dt: u64 = 0;
                    let mut k: usize = 0;
                    while k < results.len()
                        invariant
                            k <= results@.len(),
                            results@.len() == assets@.len(),
                            forall|j: int|
                                0 <= j < results@.len() ==> spec_benchmark_record(
                                    #[trigger] results@[j],
                                    assets@[j].data@,
                                    params,
                                ),
                            sum_orig == sizes_sum(assets@.take(k as int)),
                            sum_comp == compressed_sum(results@.take(k as int)),
                        decreases results@.len() - k,
                    {
                        let one = &results[k];
                        sum_ratio = sum_ratio.saturating_add(one.compression_ratio_milli());
                        sum_speed = sum_speed.saturating_add(one.speed_milli());
                        sum_orig = sum_orig.saturating_add(one.original_size);
                        sum_comp = sum_comp.saturating_add(one.compressed_size);
                        sum_ct = sum_ct.saturating_add(one.compression_time_nanos);
                        sum_dt = sum_dt.saturating_add(one.decompression_time_nanos);
                        proof {
                            assert(assets@.take(k + 1).drop_last() =~= assets@.take(k as int));
                            assert(assets@.take(k + 1).last() == assets@[k as int]);
                            assert(results@.take(k + 1).drop_last() =~= results@.take(k as int));
                            assert(results@.take(k + 1).last() == results@[k as int]);
                        }
                        k = k + 1;
                    }
                    proof {
                        assert(assets@.take(assets@.len() as int) =~= assets@);
                        assert(results@.take(results@.len() as int) =~= results@);
                    }
                    let n = results.len() as u64;
                    let avg_ratio = sum_ratio / n;
                    let avg_speed = sum_speed / n;

                    let mut label = String::from_str("Aggregate of ");
                    label.append(decimal_string(results.len()).as_str());
                    label.append(" assets");
                    let aggregate = BenchmarkResult {
                        original_size: sum_orig,
                        compressed_size: sum_comp,
                        compression_time_nanos: sum_ct / n,
                        decompression_time_nanos: sum_dt / n,
                        parameters: params,
                        asset_info: Some(label),
                    };
                    proof {
                        assert(aggregate_record_ok(params, aggregate, assets@)) by {
                            assert(results@.len() == assets@.len() && (forall|k: int|
                                0 <= k < results@.len() ==> spec_benchmark_record(
                                    #[trigger] results@[k],
                                    assets@[k].data@,
                                    params,
                                )) && aggregate.compressed_size == compressed_sum(results@));
                        }
                    }
                    let ghost tested_pre = self.spec_tested();
                    self.track_candidate(params, aggregate, avg_ratio, avg_speed);
                    proof {
                        let nn = tested_pre.len() as int;
                        assert(self.spec_tested().len() == tested_pre.len() + 1);
                        assert(forall|j: int|
                            0 <= j < tested_pre.len() ==> self.spec_tested()[j]
                                == #[trigger] tested_pre[j]);
                        assert(self.spec_tested()[nn].0 == params);
                        assert(aggregate_record_ok(
                            self.spec_tested()[nn].0,
                            self.spec_tested()[nn].1,
                            assets@,
                        ));
                        assert forall|j: int| 0 <= j < tested0.len() implies self.spec_tested()[j]
                            == #[trigger] tested0[j] by {
                            assert(self.spec_tested()[j] == tested_pre[j]);
                        }
                        assert forall|j: int|
                            tested0.len() <= j < self.spec_tested().len() implies {
                            &&& in_parameter_space((#[trigger] self.spec_tested()[j]).0)
                            &&& aggregate_record_ok(
                                self.spec_tested()[j].0,
                                self.spec_tested()[j].1,
                                assets@,
                            )
                        } by {
                            if j < nn {
                                assert(self.spec_tested()[j] == tested_pre[j]);
                            }
                        }
                        lemma_tested_params_push(tested_pre, self.spec_tested().last());
                        assert(tested_params(self.spec_tested()) =~= seen_here.insert(params));
                    }
                    iterations = iterations + 1;

                    if let Option::Some(max_time) = self.config.max_tuning_time_nanos {
                        let spent = elapsed_of(&start);
                        if duration_nanos(&spent) >= max_time {
                            budget_break = true;
                            break;
                        }
                    }
                }
            } else {
                proof {
                    assert(seen_here.contains(params));
                    assert(seen_here.insert(params) =~= seen_here);
                }
            }
        }
        proof {
            if assets@.len() > 0 && config0.max_tuning_time_nanos is None {
                assert(!budget_break);
                if consumed == space0.len() {
                    assert(space0.skip(consumed).len() == 0);
                    assert(iterations == total);
                } else {
                    assert(iterations == config0.max_iterations);
                    assert(total >= iterations);
                }
            }
            if assets@.len() > 0 && iterations == 0 {
                assert(!budget_break);
                if consumed == space0.len() {
                    assert(space0.skip(consumed).len() == 0);
                    assert(total == 0);
                } else {
                    assert(config0.max_iterations == 0);
                }
            }
        }
        let spent = elapsed_of(&start);
        self.create_tuning_result(duration_nanos(&spent), iterations)
    }

    /// Reset every best-so-far tracker, collected result and dedupe
    /// record, and rebuild the full search space, so the next run is a
    /// full, independent search.
    fn reset_run_state(&mut self)
        requires
            old(self).wf(),
        ensures
            final (self).wf(),
            final (self).fresh(),
            final (self).spec_config() == old(self).spec_config(),
            final (self).spec_space().len() == 54,
    {
        self.results = Vec::new();
        self.best_score = 0;
        self.best_parameters = None;
        self.best_ratio = u64::MAX;
        self.best_ratio_parameters = None;
        self.best_speed = 0;
        self.best_speed_parameters = None;
        self.tested_parameters = Vec::new();
        proof {
            self.scores@ = Seq::empty();
        }
        self.parameter_space = Self::build_parameter_space(self.config.random_seed);
    }

    /// Tune for the assets of one category, sampling at most five of
    /// them, over a freshly rebuilt search space, and record the winning
    /// parameters for that category — exactly when the category occurs
    /// among the assets.
    fn profile_for_type(
        &mut self,
        assets: &Vec<AssetInfo>,
        asset_type: AssetType,
        profiles: &mut Vec<AssetProfile>,
    )
        requires
            old(self).wf(),
            forall|i: int|
                0 <= i < assets@.len() ==> (#[trigger] assets@[i]).data@.len() < 4294967296,
        ensures
            final (self).wf(),
            final (self).spec_config() == old(self).spec_config(),
            forall|i: int|
                0 <= i < old(profiles)@.len() ==> final (profiles)@[i] == #[trigger] old(
                    profiles,
                )@[i],
            type_present(assets@, asset_type) ==> final (profiles)@.len() == old(profiles)@.len()
                + 1 && final (profiles)@.last().asset_type == asset_type && in_parameter_space(
                final (profiles)@.last().parameters,
            ),
            !type_present(assets@, asset_type) ==> final (profiles)@ == old(profiles)@,
    {
        let mut group: Vec<AssetInfo> = Vec::new();
        let mut i: usize = 0;
        while i < assets.len()
            invariant
                i <= assets@.len(),
                forall|j: int|
                    0 <= j < assets@.len() ==> (#[trigger] assets@[j]).data@.len() < 4294967296,
                forall|j: int|
                    0 <= j < group@.len() ==> (#[trigger] group@[j]).data@.len() < 4294967296,
                group@.len() > 0 <==> type_present(assets@.take(i as int), asset_type),
            decreases assets@.len() - i,
        {
            let ghost found_before = group@.len() > 0;
            if assets[i].asset_type == asset_type {
                group.push(assets[i].clone());
            }
            i = i + 1;
            proof {
                if group@.len() > 0 {
                    if assets@[i - 1].asset_type == asset_type {
                        assert((#[trigger] assets@.take(i as int)[i - 1]).asset_type == asset_type);
                    } else {
                        let j = choose|j: int|
                            0 <= j < i - 1 && (#[trigger] assets@.take(i - 1)[j]).asset_type
                                == asset_type;
                        assert((#[trigger] assets@.take(i as int)[j]).asset_type == asset_type);
                    }
                } else {
                    if type_present(assets@.take(i as int), asset_type) {
                        let j = choose|j: int|
                            0 <= j < i && (#[trigger] assets@.take(i as int)[j]).asset_type
                                == asset_type;
                        assert(j < i - 1 ==> (#[trigger] assets@.take(i - 1)[j]).asset_type
                            == asset_type);
                        assert(false);
                    }
                }
            }
        }
        proof {
            assert(assets@.take(assets@.len() as int) =~= assets@);
        }
        if group.len() > 0 {
            let sample: Vec<AssetInfo> = if group.len() > 5 {
                let picks = sample_indices(group.len(), 5);
                let mut s: Vec<AssetInfo> = Vec::new();
                let mut j: usize = 0;
                while j < picks.len()
                    invariant
                        j <= picks@.len(),
                        forall|k: int| 0 <= k < picks@.len() ==> #[trigger] picks@[k] < group@.len(),
                        forall|k: int|
                            0 <= k < group@.len() ==> (#[trigger] group@[k]).data@.len()
                                < 4294967296,
                        forall|k: int|
                            0 <= k < s@.len() ==> (#[trigger] s@[k]).data@.len() < 4294967296,
                    decreases picks@.len() - j,
                {
                    s.push(group[picks[j]].clone());
                    j = j + 1;
                }
                s
            } else {
                group
            };
            self.reset_run_state();
            let result = self.tune_for_assets(&sample);
            profiles.push(AssetProfile { asset_type, parameters: result.best_parameters });
        }
    }

    /// Find one recommended parameter set per classified asset category:
    /// exactly the categories (other than Unknown) that occur among the
    /// assets get a profile, each from a fresh tuning run over up to five
    /// sampled assets of that category.
    pub fn generate_asset_profiles(&mut self, assets: &Vec<AssetInfo>) -> (r: Vec<AssetProfile>)
        requires
            old(self).wf(),
            forall|i: int|
                0 <= i < assets@.len() ==> (#[trigger] assets@[i]).data@.len() < 4294967296,
        ensures
            final (self).wf(),
            r@.len() <= 5,
            forall|j: int|
                0 <= j < r@.len() ==> in_parameter_space((#[trigger] r@[j]).parameters)
                    && r@[j].asset_type != AssetType::Unknown,
            forall|j: int, k: int| 0 <= j < k < r@.len() ==> r@[j].asset_type != r@[k].asset_type,
            forall|t: AssetType|
                t != AssetType::Unknown ==> (#[trigger] type_present(assets@, t) <==> type_profiled(
                    r@,
                    t,
                )),
    {
        let mut profiles: Vec<AssetProfile> = Vec::new();
        self.profile_for_type(assets, AssetType::Texture, &mut profiles);
        self.profile_for_type(assets, AssetType::Model, &mut profiles);
        self.profile_for_type(assets, AssetType::LevelData, &mut profiles);
        self.profile_for_type(assets, AssetType::Audio, &mut profiles);
        self.profile_for_type(assets, AssetType::Animation, &mut profiles);
        profiles
    }
}

/// Perform a quick benchmark with the canonical parameters (window 4096,
/// minimum match 3) and a single run on the given asset.
pub fn quick_benchmark(asset: &AssetInfo) -> (r: Option<BenchmarkResult>)
    requires
        asset.data@.len() < 4294967296,
    ensures
        r is Some,
        spec_benchmark_record(
            r->Some_0,
            asset.data@,
            CompressionParameters { window_size: 4096, min_match_length: 3 },
        ),
        r->Some_0.asset_info is Some,
        r->Some_0.asset_info->Some_0@ == spec_asset_label(*asset),
{
    let params = CompressionParameters::new(4096, 3);
    Some(run_benchmark(asset.data(), params, Some(asset), 1))
}

} // verus!
