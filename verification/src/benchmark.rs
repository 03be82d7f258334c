//! Benchmarking one codec configuration on one buffer: timed compress and
//! decompress passes with a proven round trip, and fixed-point metrics.
//!
//! Wall-clock readings come from the system clock through trusted wrappers;
//! nothing is assumed about their values, so every derived metric is stated
//! as an exact integer function of whatever the clock returned.  Metrics
//! use thousandths (a ratio of 1.0 is 1000) and saturate at the `u64`
//! range.

use vstd::prelude::*;
use vstd::string::*;

use crate::asset_loader::{spec_display_filename, spec_type_name, AssetInfo};
use crate::model::spec_decompress;
use crate::LZSS;

verus! {

/// Parameters for configuring the LZSS compression.
#[derive(Debug, Clone, Copy, PartialEq, Eq, Hash, Structural)]
pub struct CompressionParameters {
    /// Window size in bytes.
    pub window_size: usize,
    /// Minimum match length.
    pub min_match_length: usize,
}

impl CompressionParameters {
    /// The parameter combination configures a codec whose contracts hold.
    pub open spec fn valid(&self) -> bool {
        &&& 1 <= self.window_size
        &&& 1 <= self.min_match_length
        &&& self.min_match_length + 255 <= usize::MAX
    }

    /// Create a new set of compression parameters.
    pub fn new(window_size: usize, min_match_length: usize) -> (r: Self)
        ensures
            r.window_size == window_size,
            r.min_match_length == min_match_length,
    {
        CompressionParameters { window_size, min_match_length }
    }

    /// Create an LZSS instance with these parameters.
    pub fn create_lzss(&self) -> (r: LZSS)
        ensures
            r.spec_window_size() == self.window_size,
            r.spec_min_match_length() == self.min_match_length,
            self.valid() ==> r.valid(),
    {
        LZSS::new(self.window_size, self.min_match_length)
    }
}

#[verifier::external_type_specification]
#[verifier::external_body]
pub struct ExInstant(std::time::Instant);

/// Relies on std::time::Instant::now.  A clock reading is not a function of
/// anything the library sees, so nothing is promised of it.
#[verifier::external_body]
pub(crate) fn clock_now() -> std::time::Instant {
    std::time::Instant::now()
}

/// Relies on std::time::Instant::elapsed.  The span depends on the clock,
/// so nothing is promised of it.
#[verifier::external_body]
pub(crate) fn elapsed_of(start: &std::time::Instant) -> std::time::Duration {
    start.elapsed()
}

/// Relies on std::time::Duration::as_nanos, truncated to 64 bits, which
/// covers spans of five centuries.
#[verifier::external_body]
pub(crate) fn duration_nanos(d: &std::time::Duration) -> u64 {
    d.as_nanos() as u64
}

/// Compressed size over original size, in thousandths; zero when the
/// original is empty.
pub open spec fn spec_ratio_milli(orig: nat, comp: nat) -> nat {
    if orig == 0 {
        0
    } else {
        comp * 1000 / orig
    }
}

/// Original size over compressed size, in thousandths (the inverse ratio:
/// higher is better); zero when the compressed size is zero.
pub open spec fn spec_ratio_score_milli(orig: nat, comp: nat) -> nat {
    if comp == 0 {
        0
    } else {
        orig * 1000 / comp
    }
}

/// Throughput in thousandths of a megabyte per second, for `orig` bytes
/// moved in `nanos` nanoseconds; zero when no time was measured.
pub open spec fn spec_throughput_milli(orig: nat, nanos: nat) -> nat {
    if nanos == 0 {
        0
    } else {
        orig * 1000000000000 / (1048576 * nanos)
    }
}

/// Cap a value at the `u64` range.
pub open spec fn spec_sat64(x: nat) -> nat {
    if x > u64::MAX {
        u64::MAX as nat
    } else {
        x
    }
}

/// The combined score in thousandths: the inverse ratio weighted by
/// `ratio_weight_milli`, the speed score by the rest.
pub open spec fn spec_score_milli(
    ratio_score: nat,
    speed_score: nat,
    ratio_weight_milli: nat,
) -> nat
    recommends
        ratio_weight_milli <= 1000,
{
    (ratio_weight_milli * ratio_score + ((1000 - ratio_weight_milli) as nat) * speed_score) / 1000
}

pub(crate) fn sat64(x: u128) -> (r: u64)
    ensures
        r == spec_sat64(x as nat),
{
    if x > u64::MAX as u128 {
        u64::MAX
    } else {
        x as u64
    }
}

/// The label a benchmark records for a known asset: its filename and its
/// category.
pub open spec fn spec_asset_label(a: AssetInfo) -> Seq<char> {
    spec_display_filename(a.path@) + " ("@ + spec_type_name(a.asset_type) + ")"@
}

/// The ratio a result scores, as the tuner reads it.
pub open spec fn spec_result_ratio(r: BenchmarkResult) -> nat {
    spec_sat64(spec_ratio_milli(r.original_size as nat, r.compressed_size as nat))
}

/// The inverse ratio a result scores.
pub open spec fn spec_result_ratio_score(r: BenchmarkResult) -> nat {
    spec_sat64(spec_ratio_score_milli(r.original_size as nat, r.compressed_size as nat))
}

/// The average throughput a result scores.
pub open spec fn spec_result_speed(r: BenchmarkResult) -> nat {
    (spec_sat64(spec_throughput_milli(r.original_size as nat, r.compression_time_nanos as nat))
        + spec_sat64(
        spec_throughput_milli(r.original_size as nat, r.decompression_time_nanos as nat),
    )) / 2
}

/// The combined score of a stored record under a speed figure and a
/// ratio/speed priority.
pub open spec fn spec_result_combined(r: BenchmarkResult, speed: nat, prio: nat) -> nat
    recommends
        prio <= 1000,
{
    spec_sat64(spec_score_milli(spec_result_ratio_score(r), speed / 100, prio))
}

/// What one benchmark pass guarantees of its record: the sizes belong to
/// `data` compressed under `parameters` — the compressed size is zero
/// exactly for empty data, otherwise at least a header, a control byte and
/// a token, within the worst-case estimate whenever the window fits the
/// distance range, and achieved by a stream that decodes back to `data`.
pub open spec fn spec_benchmark_record(
    r: BenchmarkResult,
    data: Seq<u8>,
    parameters: CompressionParameters,
) -> bool {
    &&& r.original_size == data.len()
    &&& r.parameters == parameters
    &&& (data.len() == 0 ==> r.compressed_size == 0)
    &&& (data.len() != 0 ==> r.compressed_size >= 6)
    &&& (parameters.window_size <= 65535 || parameters.min_match_length >= 3
        ==> r.compressed_size <= 4 + (data.len() + 7) / 8 + data.len())
    &&& (data.len() != 0 ==> exists|s: Seq<u8>|
        #[trigger] spec_decompress(s, parameters.min_match_length as nat) == data && s.len()
            == r.compressed_size)
}

/// Two benchmark records carry the same measurements: every numeric field
/// equal, and labels that agree character for character.
pub open spec fn result_matches(a: BenchmarkResult, b: BenchmarkResult) -> bool {
    &&& a.original_size == b.original_size
    &&& a.compressed_size == b.compressed_size
    &&& a.compression_time_nanos == b.compression_time_nanos
    &&& a.decompression_time_nanos == b.decompression_time_nanos
    &&& a.parameters == b.parameters
    &&& (a.asset_info is Some <==> b.asset_info is Some)
    &&& (a.asset_info is Some ==> a.asset_info->Some_0@ == b.asset_info->Some_0@)
}

/// Results from a compression benchmark.  Times are wall-clock
/// nanoseconds, averaged over the timed passes.
#[derive(Debug)]
pub struct BenchmarkResult {
    /// Original size in bytes.
    pub original_size: usize,
    /// Compressed size in bytes.
    pub compressed_size: usize,
    /// Average time of one compression pass, in nanoseconds.
    pub compression_time_nanos: u64,
    /// Average time of one timed decompression pass, in nanoseconds.
    pub decompression_time_nanos: u64,
    /// The compression parameters used.
    pub parameters: CompressionParameters,
    /// Asset label, when the benchmark ran over a known asset.
    pub asset_info: Option<String>,
}

impl Clone for BenchmarkResult {
    /// A clone carries the same measurements.
    fn clone(&self) -> (r: Self)
        ensures
            result_matches(r, *self),
    {
        BenchmarkResult {
            original_size: self.original_size,
            compressed_size: self.compressed_size,
            compression_time_nanos: self.compression_time_nanos,
            decompression_time_nanos: self.decompression_time_nanos,
            parameters: self.parameters,
            asset_info: match &self.asset_info {
                Option::Some(label) => Some(label.clone()),
                Option::None => None,
            },
        }
    }
}

impl BenchmarkResult {
    /// The compression ratio (compressed over original) in thousandths.
    pub fn compression_ratio_milli(&self) -> (r: u64)
        ensures
            r == spec_sat64(
                spec_ratio_milli(self.original_size as nat, self.compressed_size as nat),
            ),
    {
        if self.original_size == 0 {
            0
        } else {
            sat64(self.compressed_size as u128 * 1000 / self.original_size as u128)
        }
    }

    /// The inverse compression ratio (original over compressed) in
    /// thousandths; higher is better.
    pub fn compression_ratio_score_milli(&self) -> (r: u64)
        ensures
            r == spec_sat64(
                spec_ratio_score_milli(self.original_size as nat, self.compressed_size as nat),
            ),
    {
        if self.compressed_size == 0 {
            0
        } else {
            sat64(self.original_size as u128 * 1000 / self.compressed_size as u128)
        }
    }

    /// The compression throughput in thousandths of a megabyte per second.
    pub fn compression_throughput_milli(&self) -> (r: u64)
        ensures
            r == spec_sat64(
                spec_throughput_milli(
                    self.original_size as nat,
                    self.compression_time_nanos as nat,
                ),
            ),
    {
        if self.compression_time_nanos == 0 {
            0
        } else {
            sat64(
                self.original_size as u128 * 1000000000000 / (1048576 * self.compression_time_nanos
                    as u128),
            )
        }
    }

    /// The decompression throughput in thousandths of a megabyte per
    /// second.
    pub fn decompression_throughput_milli(&self) -> (r: u64)
        ensures
            r == spec_sat64(
                spec_throughput_milli(
                    self.original_size as nat,
                    self.decompression_time_nanos as nat,
                ),
            ),
    {
        if self.decompression_time_nanos == 0 {
            0
        } else {
            sat64(
                self.original_size as u128 * 1000000000000 / (1048576
                    * self.decompression_time_nanos as u128),
            )
        }
    }

    /// The average of both throughputs, in thousandths of a megabyte per
    /// second.
    pub fn speed_milli(&self) -> (r: u64)
        ensures
            r == (spec_sat64(
                spec_throughput_milli(
                    self.original_size as nat,
                    self.compression_time_nanos as nat,
                ),
            ) + spec_sat64(
                spec_throughput_milli(
                    self.original_size as nat,
                    self.decompression_time_nanos as nat,
                ),
            )) / 2,
    {
        let c = self.compression_throughput_milli();
        let d = self.decompression_throughput_milli();
        sat64(c as u128 / 2 + d as u128 / 2 + (c as u128 % 2 + d as u128 % 2) / 2)
    }

    /// Combined score in thousandths, balancing the inverse ratio (weight
    /// 0.4) against the speed score, which is the average throughput
    /// normalized by one hundred (weight 0.6).  Higher is better.
    pub fn score_milli(&self) -> (r: u64)
        ensures
            r == spec_sat64(
                spec_score_milli(
                    spec_sat64(
                        spec_ratio_score_milli(
                            self.original_size as nat,
                            self.compressed_size as nat,
                        ),
                    ),
                    (spec_sat64(
                        spec_throughput_milli(
                            self.original_size as nat,
                            self.compression_time_nanos as nat,
                        ),
                    ) + spec_sat64(
                        spec_throughput_milli(
                            self.original_size as nat,
                            self.decompression_time_nanos as nat,
                        ),
                    )) / 2 / 100,
                    400,
                ),
            ),
    {
        let ratio_score = self.compression_ratio_score_milli();
        let speed_score = self.speed_milli() / 100;
        sat64((400 * ratio_score as u128 + 600 * speed_score as u128) / 1000)
    }
}

/// Runs a benchmark with the given data and compression parameters:
/// `runs` timed compression passes, and `runs - 1` timed decompression
/// passes after one warm-up — except that a single-run benchmark times its
/// one decompression directly rather than dividing by zero.  Every
/// decompression is the verified decoder, whose output provably equals the
/// original data.  The recorded compressed size is that of a stream which
/// decodes back to the data; since the compressor's contract deliberately
/// leaves its exact token choice relational, the tie is existential rather
/// than an equation with one named output.
pub fn run_benchmark(
    data: &Vec<u8>,
    parameters: CompressionParameters,
    asset_info: Option<&AssetInfo>,
    runs: usize,
) -> (r: BenchmarkResult)
    requires
        runs >= 1,
        parameters.valid(),
        data@.len() < 4294967296,
    ensures
        spec_benchmark_record(r, data@, parameters),
        r.asset_info is Some <==> asset_info is Some,
        asset_info is Some ==> r.asset_info->Some_0@ == spec_asset_label(*asset_info->Some_0),
{
    let lzss = parameters.create_lzss();
    let ghost mm = lzss.spec_min_match_length();

    let mut total_compression: u64 = 0;
    let mut total_decompression: u64 = 0;
    let mut compressed: Vec<u8> = Vec::new();
    let mut i: usize = 0;
    while i < runs
        invariant
            i <= runs,
            runs >= 1,
            lzss.valid(),
            lzss.spec_min_match_length() == mm,
            data@.len() < 4294967296,
            i > 0 ==> spec_decompress(compressed@, mm) == data@,
            i > 0 ==> (data@.len() == 0 ==> compressed@.len() == 0),
            i > 0 ==> (data@.len() != 0 ==> compressed@.len() >= 6),
            i > 0 && (lzss.spec_window_size() <= 65535 || mm >= 3) ==> compressed@.len() <= 4 + (
            data@.len() + 7) / 8 + data@.len(),
        decreases runs - i,
    {
        let start = clock_now();
        compressed = lzss.compress(data);
        let spent = elapsed_of(&start);
        total_compression = total_compression.saturating_add(duration_nanos(&spent));

        if i > 0 || runs == 1 {
            let dstart = clock_now();
            let decompressed = lzss.decompress(&compressed);
            let dspent = elapsed_of(&dstart);
            total_decompression = total_decompression.saturating_add(duration_nanos(&dspent));
            proof {
                // a round-trip mismatch would be a codec defect; here the
                // decoder's contract rules it out
                assert(decompressed@ == data@);
            }
        }
        i = i + 1;
    }

    let avg_compression = total_compression / (runs as u64);
    let decompression_samples: u64 = if runs == 1 {
        1
    } else {
        (runs - 1) as u64
    };
    let avg_decompression = total_decompression / decompression_samples;

    let label: Option<String> = match asset_info {
        Option::None => None,
        Option::Some(info) => {
            let mut s = info.filename();
            s.append(" (");
            s.append(info.asset_type.name().as_str());
            s.append(")");
            proof {
                assert(s@ == spec_asset_label(*info));
            }
            Some(s)
        },
    };
    proof {
        if data@.len() != 0 {
            assert(spec_decompress(compressed@, mm) == data@);
        }
    }

    BenchmarkResult {
        original_size: data.len(),
        compressed_size: compressed.len(),
        compression_time_nanos: avg_compression,
        decompression_time_nanos: avg_decompression,
        parameters,
        asset_info: label,
    }
}

} // verus!
