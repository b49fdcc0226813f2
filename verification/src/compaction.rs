//! The background compaction planner.
//!
//! Compaction groups a table's eligible files per generation and rewrites
//! them into the next-higher generation. The planner here decides which
//! jobs to run and validates their outputs; the query engine that rewrites
//! the rows and the store that holds the blobs live with the caller.

use vstd::prelude::*;

use crate::catalog_api::Catalog;
use crate::files::{ParquetFile, PersistedFiles, dup_files};
use crate::table::clone_strings;
use crate::textutil::{all_digits, parse_decimal_range};
use crate::types::{DbId, TableId};

verus! {

/// Everything that can go wrong while planning or validating compaction.
#[derive(Debug, Clone, PartialEq, Eq)]
pub enum CompactionError {
    /// A file path carries a generation outside the supported levels.
    InvalidGeneration,
    /// A table without a sort key cannot be compacted.
    EmptySortKey,
    /// A rewritten batch's time column is not ordered.
    TimeColumnNotSorted,
    /// The rewritten files are not ordered by their minimum time.
    OutputsNotOrdered,
    /// The index refused the atomic swap of inputs for outputs.
    IndexRejected,
}

/// The highest generation level.
pub const MAX_GENERATION: u8 = 5;

/// Configuration for the compaction service.
pub struct CompactionConfig {
    /// Whether compaction is enabled.
    pub enabled: bool,
    /// Seconds between compaction runs.
    pub interval_secs: u64,
    /// Bound on the number of jobs taken in a single run.
    pub max_files_per_run: usize,
    /// How many files a generation must hold before it is compacted.
    pub min_files_for_compaction: usize,
    /// Per-level target durations in nanoseconds, in level order.
    pub generation_durations: Vec<(u8, u64)>,
}

impl Default for CompactionConfig {
    /// The defaults: enabled, an hourly cycle, at most a hundred jobs per
    /// run, and ten files before a generation is compacted.
    fn default() -> (r: Self)
        ensures
            r.enabled,
            r.interval_secs == 3600,
            r.max_files_per_run == 100,
            r.min_files_for_compaction == 10,
            r.generation_durations@.len() == 0,
    {
        CompactionConfig {
            enabled: true,
            interval_secs: 3600,
            max_files_per_run: 100,
            min_files_for_compaction: 10,
            generation_durations: Vec::new(),
        }
    }
}

/// The duration configured for a level: the first matching entry decides.
pub open spec fn spec_duration_for_level(s: Seq<(u8, u64)>, level: u8) -> Option<u64> {
    if exists|i: int| 0 <= i < s.len() && (#[trigger] s[i]).0 == level {
        Some(s[first_level_idx(s, level)].1)
    } else {
        None
    }
}

/// The position of the first entry carrying a level.
pub open spec fn first_level_idx(s: Seq<(u8, u64)>, level: u8) -> int {
    choose|i: int|
        0 <= i < s.len() && (#[trigger] s[i]).0 == level
            && (forall|k: int| 0 <= k < i ==> (#[trigger] s[k]).0 != level)
}

impl CompactionConfig {
    /// The duration configured for a generation level, if any.
    pub fn duration_for(&self, level: u8) -> (r: Option<u64>)
        ensures
            r == spec_duration_for_level(self.generation_durations@, level),
    {
        let mut i: usize = 0;
        while i < self.generation_durations.len()
            invariant
                i <= self.generation_durations@.len(),
                forall|k: int|
                    0 <= k < i ==> (#[trigger] self.generation_durations@[k]).0 != level,
            decreases self.generation_durations@.len() - i,
        {
            if self.generation_durations[i].0 == level {
                proof {
                    let s = self.generation_durations@;
                    assert(s[i as int].0 == level
                        && (forall|k: int| 0 <= k < i ==> (#[trigger] s[k]).0 != level));
                    let m = first_level_idx(s, level);
                    if m < i {
                        assert(s[m].0 != level);
                    }
                    if m > i {
                        assert(s[i as int].0 != level);
                    }
                }
                return Some(self.generation_durations[i].1);
            }
            i += 1;
        }
        None
    }
}

/// A compaction job: rewrite these files of one table from one generation
/// into the next.
pub struct CompactionJob {
    pub database_id: DbId,
    pub table_id: TableId,
    pub table_name: String,
    pub source_generation: u8,
    pub target_generation: u8,
    pub files: Vec<ParquetFile>,
    pub sort_key: Vec<String>,
}

/// What one finished compaction job did.
pub struct CompactionResult {
    pub compacted_files: Vec<ParquetFile>,
    pub deleted_files: Vec<ParquetFile>,
    pub total_size_reduction: u64,
    pub total_rows_compacted: u64,
}

/// The generation after this one, unless it is the coarsest.
pub fn get_next_generation(current_gen: u8) -> (r: Option<u8>)
    ensures
        current_gen < MAX_GENERATION ==> r == Some((current_gen + 1) as u8),
        current_gen >= MAX_GENERATION ==> r is None,
{
    if current_gen < MAX_GENERATION {
        Some(current_gen + 1)
    } else {
        None
    }
}

/// The least timestamp among the files' minimum times, or zero where the
/// list is empty.
pub open spec fn spec_min_time(files: Seq<ParquetFile>) -> i64
    decreases files.len(),
{
    if files.len() == 0 {
        0
    } else {
        let rest = spec_min_time(files.drop_last());
        if files.len() == 1 || files.last().min_time < rest {
            files.last().min_time
        } else {
            rest
        }
    }
}

/// The greatest timestamp among the files' maximum times, or zero where
/// the list is empty.
pub open spec fn spec_max_time(files: Seq<ParquetFile>) -> i64
    decreases files.len(),
{
    if files.len() == 0 {
        0
    } else {
        let rest = spec_max_time(files.drop_last());
        if files.len() == 1 || files.last().max_time > rest {
            files.last().max_time
        } else {
            rest
        }
    }
}

/// The width of the time span the files cover, clamped below at zero.
pub open spec fn spec_span_ns(files: Seq<ParquetFile>) -> int {
    if spec_max_time(files) >= spec_min_time(files) {
        spec_max_time(files) - spec_min_time(files)
    } else {
        0
    }
}

/// Whether the files are many enough and span the target duration, so that
/// compacting them into that generation is worthwhile.
pub fn can_compact_to_generation(files: &Vec<ParquetFile>, min_files: usize,
    target_duration_ns: u64) -> (r: bool)
    ensures
        r == (files@.len() >= min_files && spec_span_ns(files@) >= target_duration_ns),
{
    if files.len() < min_files {
        return false;
    }
    let mut min_time: i64 = 0;
    let mut max_time: i64 = 0;
    let mut i: usize = 0;
    while i < files.len()
        invariant
            i <= files@.len(),
            min_time == spec_min_time(files@.subrange(0, i as int)),
            max_time == spec_max_time(files@.subrange(0, i as int)),
        decreases files@.len() - i,
    {
        proof {
            assert(files@.subrange(0, (i + 1) as int).drop_last()
                =~= files@.subrange(0, i as int));
        }
        if i == 0 {
            min_time = files[i].min_time;
            max_time = files[i].max_time;
        } else {
            if files[i].min_time < min_time {
                min_time = files[i].min_time;
            }
            if files[i].max_time > max_time {
                max_time = files[i].max_time;
            }
        }
        i += 1;
    }
    proof {
        assert(files@.subrange(0, files@.len() as int) =~= files@);
    }
    if max_time < min_time {
        return target_duration_ns == 0;
    }
    let span: i128 = max_time as i128 - min_time as i128;
    span >= target_duration_ns as i128
}

/// Whether a generation marker starts at position `i` of a path.
pub open spec fn gen_marker_at(s: Seq<char>, i: int) -> bool {
    &&& 0 <= i
    &&& i + 4 <= s.len()
    &&& s[i] == '/'
    &&& s[i + 1] == 'g'
    &&& s[i + 2] == 'e'
    &&& s[i + 3] == 'n'
}

/// The generation level a file path carries in its `gen` segment. The
/// first marker decides; a path without one belongs to the first
/// generation; a level outside the supported range is refused.
pub fn get_file_generation(path: &str) -> (r: Result<u8, CompactionError>)
    ensures
        r matches Ok(g) ==> 1 <= g <= MAX_GENERATION,
        (forall|i: int| !gen_marker_at(path@, i)) ==> r == Ok::<u8, CompactionError>(1u8),
        (exists|i: int| gen_marker_at(path@, i)) ==> ({
            let ds = first_gen_marker(path@) + 4;
            let de = gen_digits_end(path@, ds);
            let digits = path@.subrange(ds, de);
            match r {
                Ok(g) => de > ds && all_digits(digits)
                    && g == crate::textutil::spec_parse_decimal(digits)
                    && 1 <= g <= MAX_GENERATION,
                Err(e) => e is InvalidGeneration && (de == ds || !all_digits(digits)
                    || crate::textutil::spec_parse_decimal(digits) < 1
                    || crate::textutil::spec_parse_decimal(digits)
                        > MAX_GENERATION as nat),
            }
        }),
        r == (match spec_file_generation(path@) {
            Some(g) => Ok::<u8, CompactionError>(g),
            None => Err::<u8, CompactionError>(CompactionError::InvalidGeneration),
        }),
    {
    proof {
        reveal(spec_file_generation);
    }
    let len = path.unicode_len();
    let mut i: usize = 0;
    while i < len
        invariant
            len == path@.len(),
            i <= len,
            forall|k: int| 0 <= k < i ==> !gen_marker_at(path@, k),
        decreases len - i,
    {
        proof {
            reveal(spec_file_generation);
        }
        if len - i >= 4 && path.get_char(i) == '/' && path.get_char(i + 1) == 'g'
            && path.get_char(i + 2) == 'e' && path.get_char(i + 3) == 'n'
        {
            proof {
                assert(gen_marker_at(path@, i as int));
                lemma_first_marker_is(path@, i as int);
            }
            // the digits run to the next separator
            let digits_start = i + 4;
            let mut j = digits_start;
            while j < len && path.get_char(j) != '/'
                invariant
                    len == path@.len(),
                    digits_start <= j <= len,
                    forall|t: int| digits_start <= t < j ==> path@[t] != '/',
                decreases len - j,
            {
                j += 1;
            }
            proof {
                lemma_digits_end_is(path@, digits_start as int, j as int);
            }
            match parse_decimal_range(path, digits_start, j) {
                Some(value) => {
                    if 1 <= value && value <= MAX_GENERATION as u64 {
                        return Ok(value as u8);
                    } else {
                        return Err(CompactionError::InvalidGeneration);
                    }
                },
                None => {
                    return Err(CompactionError::InvalidGeneration);
                },
            }
        }
        i += 1;
    }
    Ok(1)
}

/// The generation a path carries: the first generation of paths without a
/// marker; the digits after the first marker where they parse to a
/// supported level; nothing otherwise.
#[verifier::opaque]
pub open spec fn spec_file_generation(s: Seq<char>) -> Option<u8> {
    if forall|i: int| !gen_marker_at(s, i) {
        Some(1u8)
    } else {
        let ds = first_gen_marker(s) + 4;
        let de = gen_digits_end(s, ds);
        let digits = s.subrange(ds, de);
        if de > ds && all_digits(digits)
            && 1 <= crate::textutil::spec_parse_decimal(digits)
            && crate::textutil::spec_parse_decimal(digits) <= MAX_GENERATION as nat {
            Some(crate::textutil::spec_parse_decimal(digits) as u8)
        } else {
            None
        }
    }
}

/// The position of the first generation marker of a path that has one.
pub open spec fn first_gen_marker(s: Seq<char>) -> int {
    choose|i: int|
        gen_marker_at(s, i) && (forall|k: int| 0 <= k < i ==> !gen_marker_at(s, k))
}

/// Where the digits after a generation marker end: the next separator, or
/// the end of the path.
pub open spec fn gen_digits_end(s: Seq<char>, start: int) -> int
    decreases s.len() - start,
{
    if start < 0 || start >= s.len() {
        s.len() as int
    } else if s[start] == '/' {
        start
    } else {
        gen_digits_end(s, start + 1)
    }
}

/// A marker with none before it is the first.
proof fn lemma_first_marker_is(s: Seq<char>, i: int)
    requires
        gen_marker_at(s, i),
        forall|k: int| 0 <= k < i ==> !gen_marker_at(s, k),
    ensures
        first_gen_marker(s) == i,
{
    let m = first_gen_marker(s);
    assert(gen_marker_at(s, i) && (forall|k: int| 0 <= k < i ==> !gen_marker_at(s, k)));
    if m < i {
        assert(!gen_marker_at(s, m));
    }
    if m > i {
        assert(!gen_marker_at(s, i));
    }
}

/// A separator position with no separator before it ends the digits.
proof fn lemma_digits_end_is(s: Seq<char>, start: int, j: int)
    requires
        0 <= start <= j <= s.len(),
        j == s.len() || s[j] == '/',
        forall|t: int| start <= t < j ==> s[t] != '/',
    ensures
        gen_digits_end(s, start) == j,
    decreases j - start,
{
    if start < j {
        assert(s[start] != '/');
        lemma_digits_end_is(s, start + 1, j);
    }
}

/// The minimum and maximum timestamp of a rewritten batch's time column,
/// which the rewrite hands over ordered: its first and last values. Fails
/// unless the column is non-decreasing. An empty column yields a zero
/// range.
pub fn calculate_time_range_from_batch(times: &Vec<i64>)
    -> (r: Result<(i64, i64), CompactionError>)
    ensures
        times@.len() == 0 ==> r == Ok::<(i64, i64), CompactionError>((0i64, 0i64)),
        times@.len() > 0 ==> match r {
            Ok(range) => {
                &&& range.0 == times@[0]
                &&& range.1 == times@.last()
                &&& forall|i: int|
                    1 <= i < times@.len() ==> #[trigger] times@[i] >= times@[i - 1]
            },
            Err(e) => {
                &&& e is TimeColumnNotSorted
                &&& exists|i: int|
                    1 <= i < times@.len() && #[trigger] times@[i] < times@[i - 1]
            },
        },
{
    if times.len() == 0 {
        return Ok((0, 0));
    }
    let min_time = times[0];
    let max_time = times[times.len() - 1];
    let mut i: usize = 1;
    while i < times.len()
        invariant
            times@.len() > 0,
            min_time == times@[0],
            1 <= i <= times@.len(),
            forall|k: int| 1 <= k < i ==> #[trigger] times@[k] >= times@[k - 1],
        decreases times@.len() - i,
    {
        if times[i] < times[i - 1] {
            return Err(CompactionError::TimeColumnNotSorted);
        }
        i += 1;
    }
    Ok((min_time, max_time))
}

/// The chunk-time bucket a rewritten batch falls into: its minimum time
/// rounded down to the target duration (towards minus infinity); the
/// current time where the batch starts at the epoch, and the minimum
/// itself where the duration is unusable.
pub fn calculate_chunk_time_for_generation(min_time: i64, target_duration_ns: u64,
    now_ns: i64) -> (r: i64)
    ensures
        min_time == 0 ==> r == now_ns,
        min_time != 0 && 0 < target_duration_ns <= i64::MAX
            ==> r == crate::database::clamp_i64(
                (min_time / (target_duration_ns as i64)) * (target_duration_ns as i64)),
        min_time != 0 && (target_duration_ns == 0 || target_duration_ns > i64::MAX)
            ==> r == min_time,
{
    if min_time == 0 {
        return now_ns;
    }
    if target_duration_ns == 0 || target_duration_ns > i64::MAX as u64 {
        return min_time;
    }
    let dur = target_duration_ns as i64;
    if min_time > 0 {
        let bucket = min_time / dur;
        proof {
            assert(bucket * dur <= min_time && bucket * dur >= 0) by (nonlinear_arith)
                requires
                    min_time > 0,
                    dur > 0,
                    bucket == min_time / dur,
            {
            }
        }
        bucket * dur
    } else {
        // round a negative instant down: the bucket below, unless exactly
        // on a boundary
        let magnitude: i128 = -(min_time as i128);
        let dur_wide: i128 = dur as i128;
        let bucket_mag: i128 = (magnitude + dur_wide - 1) / dur_wide;
        proof {
            lemma_floor_div_negative(min_time as int, dur as int, bucket_mag as int);
        }
        let r_wide: i128 = -(bucket_mag * dur_wide);
        if r_wide < i64::MIN as i128 {
            i64::MIN
        } else {
            r_wide as i64
        }
    }
}

/// Rounding a negative instant down to a positive duration agrees with the
/// mathematical floor division: negating the ceiling of the magnitude.
proof fn lemma_floor_div_negative(min_time: int, dur: int, bucket_mag: int)
    requires
        min_time < 0,
        0 < dur <= i64::MAX,
        min_time >= i64::MIN,
        bucket_mag == ((-min_time) + dur - 1) / dur,
    ensures
        min_time / dur == -bucket_mag,
        -(bucket_mag * dur) == (min_time / dur) * dur,
        -(bucket_mag * dur) <= 0,
        -(bucket_mag * dur) > min_time - dur,
{
    let m = -min_time;
    let x = m + dur - 1;
    vstd::arithmetic::div_mod::lemma_fundamental_div_mod(x, dur);
    let rem = x % dur;
    assert(x == dur * bucket_mag + rem);
    assert(0 <= rem < dur);
    // the ceiling bounds: m <= dur * bucket_mag <= m + dur - 1
    assert(dur * bucket_mag == x - rem);
    assert(m <= dur * bucket_mag <= m + dur - 1);
    // so -bucket_mag is the euclidean quotient of min_time by dur
    let r0 = dur * bucket_mag - m;
    assert(0 <= r0 < dur);
    assert(min_time == (-bucket_mag) * dur + r0) by {
        assert((-bucket_mag) * dur == -(dur * bucket_mag)) by (nonlinear_arith);
    }
    vstd::arithmetic::div_mod::lemma_fundamental_div_mod_converse(min_time, dur,
        -bucket_mag, r0);
    assert(min_time / dur == -bucket_mag);
    assert((min_time / dur) * dur == (-bucket_mag) * dur);
    assert((-bucket_mag) * dur == -(bucket_mag * dur)) by (nonlinear_arith);
    assert(bucket_mag * dur == dur * bucket_mag) by (nonlinear_arith);
}

/// The files whose paths carry this generation, in order.
pub open spec fn gen_bucket(files: Seq<ParquetFile>, g: u8) -> Seq<ParquetFile> {
    files.filter(|f: ParquetFile| spec_file_generation(f.path@) == Some(g))
}

/// Whether a generation of a table's files warrants a compaction job: the
/// table has enough files at all, the generation's bucket is full enough,
/// the next generation has a configured duration, and the bucket spans it.
#[verifier::opaque]
pub open spec fn gen_qualifies(config: CompactionConfig, files: Seq<ParquetFile>, g: u8)
    -> bool {
    &&& files.len() >= config.min_files_for_compaction
    &&& 1 <= g < MAX_GENERATION
    &&& gen_bucket(files, g).len() >= config.min_files_for_compaction
    &&& match spec_duration_for_level(config.generation_durations@, (g + 1) as u8) {
        Some(d) => spec_span_ns(gen_bucket(files, g)) >= d,
        None => false,
    }
}

/// Checks that a job can run at all: a table without a sort key cannot be
/// compacted.
pub fn validate_job_sort_key(job: &CompactionJob) -> (r: Result<(), CompactionError>)
    ensures
        r matches Ok(()) <==> job.sort_key@.len() > 0,
        r matches Err(e) ==> e is EmptySortKey,
{
    if job.sort_key.len() == 0 {
        Err(CompactionError::EmptySortKey)
    } else {
        Ok(())
    }
}

/// Checks that the rewritten files of one job come out ordered by their
/// minimum time.
pub fn validate_compacted_data(compacted_files: &Vec<ParquetFile>)
    -> (r: Result<(), CompactionError>)
    ensures
        r matches Ok(()) <==> (forall|i: int|
            1 <= i < compacted_files@.len()
                ==> (#[trigger] compacted_files@[i]).min_time
                    >= compacted_files@[i - 1].min_time),
        r matches Err(e) ==> e is OutputsNotOrdered,
{
    if compacted_files.len() <= 1 {
        return Ok(());
    }
    let mut i: usize = 1;
    while i < compacted_files.len()
        invariant
            1 <= i <= compacted_files@.len(),
            forall|k: int|
                1 <= k < i ==> (#[trigger] compacted_files@[k]).min_time
                    >= compacted_files@[k - 1].min_time,
        decreases compacted_files@.len() - i,
    {
        if compacted_files[i].min_time < compacted_files[i - 1].min_time {
            proof {
                assert(compacted_files@[i as int].min_time
                    < compacted_files@[i as int - 1].min_time);
            }
            return Err(CompactionError::OutputsNotOrdered);
        }
        i += 1;
    }
    Ok(())
}

/// Identifies the compaction jobs of one table: its files bucketed by the
/// generation their paths carry, every full-enough bucket whose next
/// generation has a configured duration and whose span reaches it. Files
/// whose paths refuse a generation are skipped, as is the coarsest
/// generation. A job comes out exactly for each qualifying generation,
/// holding exactly that generation's files and the table's sort key.
#[verifier::spinoff_prover]
#[verifier::rlimit(100)]
pub fn identify_jobs_for_table(config: &CompactionConfig, db_id: DbId, table_id: TableId,
    table_name: &String, sort_key: &Vec<String>, files: &Vec<ParquetFile>)
    -> (r: Vec<CompactionJob>)
    ensures
        forall|i: int|
            0 <= i < r@.len() ==> {
                let job = #[trigger] r@[i];
                &&& job.database_id == db_id
                &&& job.table_id == table_id
                &&& gen_qualifies(*config, files@, job.source_generation)
                &&& job.target_generation == job.source_generation + 1
                &&& job.files@ == gen_bucket(files@, job.source_generation)
                &&& job.sort_key@ == sort_key@
            },
        forall|g: u8|
            1 <= g < MAX_GENERATION && #[trigger] gen_qualifies(*config, files@, g)
                ==> exists|i: int|
                    0 <= i < r@.len() && (#[trigger] r@[i]).source_generation == g,
{
    let mut jobs: Vec<CompactionJob> = Vec::new();
    if files.len() < config.min_files_for_compaction {
        proof {
            reveal(gen_qualifies);
        }
        return jobs;
    }
    // bucket the files by the generation their paths carry
    let mut buckets: Vec<Vec<ParquetFile>> = Vec::new();
    let mut g: usize = 0;
    while g < MAX_GENERATION as usize
        invariant
            buckets@.len() == g,
            g <= MAX_GENERATION as usize,
            forall|b: int| 0 <= b < g ==> (#[trigger] buckets@[b])@.len() == 0,
        decreases MAX_GENERATION as usize - g,
    {
        buckets.push(Vec::new());
        g += 1;
    }
    proof {
        assert forall|gg: u8| 1 <= gg <= MAX_GENERATION implies
            (#[trigger] buckets@[gg - 1])@ =~= gen_bucket(files@.subrange(0, 0), gg) by {
            reveal_with_fuel(Seq::filter, 2);
            assert(files@.subrange(0, 0) =~= Seq::<ParquetFile>::empty());
        }
    }
    let mut i: usize = 0;
    while i < files.len()
        invariant
            buckets@.len() == MAX_GENERATION as nat,
            i <= files@.len(),
            forall|gg: u8|
                1 <= gg <= MAX_GENERATION ==> (#[trigger] buckets@[gg - 1])@
                    == gen_bucket(files@.subrange(0, i as int), gg),
        decreases files@.len() - i,
    {
        let ghost buckets_before = buckets@;
        match get_file_generation(files[i].path.as_str()) {
            Ok(generation) => {
                let slot = (generation - 1) as usize;
                let bucket = &mut buckets[slot];
                bucket.push(files[i].duplicate());
            },
            Err(_) => {},
        }
        i += 1;
        proof {
            let sub = files@.subrange(0, i as int);
            assert(sub.drop_last() =~= files@.subrange(0, (i - 1) as int));
            reveal_with_fuel(Seq::filter, 2);
            reveal(spec_file_generation);
            assert forall|gg: u8| 1 <= gg <= MAX_GENERATION implies
                (#[trigger] buckets@[gg - 1])@ == gen_bucket(sub, gg) by {
                if spec_file_generation(files@[i - 1].path@) == Some(gg) {
                    assert(buckets@[gg - 1]@
                        =~= buckets_before[gg - 1]@.push(files@[i - 1]));
                    assert(gen_bucket(sub, gg)
                        =~= gen_bucket(sub.drop_last(), gg).push(files@[i - 1]));
                } else {
                    assert(buckets@[gg - 1]@ == buckets_before[gg - 1]@);
                    assert(gen_bucket(sub, gg) =~= gen_bucket(sub.drop_last(), gg));
                }
            }
        }
    }
    proof {
        assert(files@.subrange(0, files@.len() as int) =~= files@);
    }
    // a full-enough bucket whose span reaches the next generation's
    // duration becomes a job
    let mut gen: u8 = 1;
    while gen < MAX_GENERATION
        invariant
            buckets@.len() == MAX_GENERATION as nat,
            files@.len() >= config.min_files_for_compaction,
            1 <= gen <= MAX_GENERATION,
            forall|gg: u8|
                1 <= gg <= MAX_GENERATION ==> (#[trigger] buckets@[gg - 1])@
                    == gen_bucket(files@, gg),
            forall|i: int|
                0 <= i < jobs@.len() ==> {
                    let job = #[trigger] jobs@[i];
                    &&& job.database_id == db_id
                    &&& job.table_id == table_id
                    &&& gen_qualifies(*config, files@, job.source_generation)
                    &&& job.target_generation == job.source_generation + 1
                    &&& job.files@ == gen_bucket(files@, job.source_generation)
                    &&& job.sort_key@ == sort_key@
                },
            forall|gg: u8|
                1 <= gg < gen && #[trigger] gen_qualifies(*config, files@, gg)
                    ==> exists|i: int|
                        0 <= i < jobs@.len() && (#[trigger] jobs@[i]).source_generation
                            == gg,
        decreases MAX_GENERATION - gen,
    {
        proof {
            reveal(gen_qualifies);
        }
        let ghost jobs_before = jobs@;
        let bucket = &buckets[(gen - 1) as usize];
        if bucket.len() >= config.min_files_for_compaction {
            let next_gen = gen + 1;
            match config.duration_for(next_gen) {
                Some(target_duration_ns) => {
                    if can_compact_to_generation(bucket, config.min_files_for_compaction,
                        target_duration_ns)
                    {
                        jobs.push(CompactionJob {
                            database_id: db_id,
                            table_id,
                            table_name: table_name.clone(),
                            source_generation: gen,
                            target_generation: next_gen,
                            files: dup_files(bucket),
                            sort_key: clone_strings(sort_key),
                        });
                        proof {
                            assert(jobs@[jobs@.len() - 1].source_generation == gen);
                        }
                    }
                },
                None => {},
            }
        }
        proof {
            assert forall|gg: u8|
                1 <= gg < gen + 1 && #[trigger] gen_qualifies(*config, files@, gg)
                    implies exists|i: int|
                        0 <= i < jobs@.len()
                            && (#[trigger] jobs@[i]).source_generation == gg by {
                if gg < gen {
                    let i = choose|i: int|
                        0 <= i < jobs_before.len()
                            && (#[trigger] jobs_before[i]).source_generation == gg;
                    assert(jobs@[i].source_generation == gg);
                } else {
                    assert(jobs@[jobs@.len() - 1].source_generation == gg);
                }
            }
        }
        gen += 1;
    }
    jobs
}

/// Whether a job belongs to the catalog: some live table of a live
/// database whose files qualify at the job's source generation, with
/// exactly that generation's files and the table's sort key.
pub open spec fn job_from_catalog(catalog: Catalog, config: CompactionConfig,
    index: PersistedFiles, job: CompactionJob) -> bool {
    exists|d: int, t: int| {
        let db = (#[trigger] catalog.inner.databases.entries@[d]).res;
        &&& 0 <= d < catalog.inner.databases.entries@.len()
        &&& !db.deleted
        &&& 0 <= t < db.tables.entries@.len()
        &&& !(#[trigger] catalog.inner.databases.entries@[d].res.tables.entries@[t])
            .res.deleted
        &&& job.database_id == db.id
        &&& job.table_id == db.tables.entries@[t].res.table_id
        &&& gen_qualifies(config, index.spec_files(job.database_id, job.table_id),
            job.source_generation)
        &&& job.target_generation == job.source_generation + 1
        &&& job.files@ == gen_bucket(index.spec_files(job.database_id, job.table_id),
            job.source_generation)
        &&& crate::eqv::strings_eqv(job.sort_key@, db.tables.entries@[t].res.sort_key@)
    }
}

/// Whether one table position of the catalog qualifies for compaction at a
/// generation.
pub open spec fn catalog_table_qualifies(catalog: Catalog, config: CompactionConfig,
    index: PersistedFiles, d: int, t: int, g: u8) -> bool {
    let db = catalog.inner.databases.entries@[d].res;
    &&& 0 <= d < catalog.inner.databases.entries@.len()
    &&& !db.deleted
    &&& 0 <= t < db.tables.entries@.len()
    &&& !db.tables.entries@[t].res.deleted
    &&& gen_qualifies(config, index.spec_files(db.id, db.tables.entries@[t].res.table_id),
        g)
}

/// Identifies the compaction jobs across the whole catalog: for every live
/// table of every live database, a job per qualifying generation, and
/// nothing else.
#[verifier::spinoff_prover]
#[verifier::rlimit(100)]
pub fn identify_compaction_jobs(catalog: &Catalog, config: &CompactionConfig,
    index: &PersistedFiles) -> (r: Vec<CompactionJob>)
    requires
        catalog.wf(),
        index.wf(),
    ensures
        forall|i: int|
            0 <= i < r@.len() ==> #[trigger] job_from_catalog(*catalog, *config, *index,
                r@[i]),
        forall|d: int, t: int, g: u8|
            #[trigger] catalog_table_qualifies(*catalog, *config, *index, d, t, g)
                ==> exists|i: int|
                    0 <= i < r@.len()
                        && (#[trigger] r@[i]).database_id
                            == catalog.inner.databases.entries@[d].res.id
                        && r@[i].table_id == catalog.inner.databases.entries@[d]
                            .res.tables.entries@[t].res.table_id
                        && r@[i].source_generation == g,
{
    let mut jobs: Vec<CompactionJob> = Vec::new();
    let mut d: usize = 0;
    while d < catalog.inner.databases.entries.len()
        invariant
            catalog.wf(),
            index.wf(),
            d <= catalog.inner.databases.entries@.len(),
            forall|i: int|
                0 <= i < jobs@.len() ==> #[trigger] job_from_catalog(*catalog, *config,
                    *index, jobs@[i]),
            forall|d2: int, t2: int, g: u8|
                d2 < d && #[trigger] catalog_table_qualifies(*catalog, *config, *index,
                    d2, t2, g)
                    ==> exists|i: int|
                        0 <= i < jobs@.len()
                            && (#[trigger] jobs@[i]).database_id
                                == catalog.inner.databases.entries@[d2].res.id
                            && jobs@[i].table_id == catalog.inner.databases.entries@[d2]
                                .res.tables.entries@[t2].res.table_id
                            && jobs@[i].source_generation == g,
        decreases catalog.inner.databases.entries@.len() - d,
    {
        let db = &catalog.inner.databases.entries[d].res;
        if !db.deleted {
            let mut t: usize = 0;
            while t < db.tables.entries.len()
                invariant
                    catalog.wf(),
                    index.wf(),
                    d < catalog.inner.databases.entries@.len(),
                    db == &catalog.inner.databases.entries@[d as int].res,
                    !db.deleted,
                    t <= db.tables.entries@.len(),
                    forall|i: int|
                        0 <= i < jobs@.len() ==> #[trigger] job_from_catalog(*catalog,
                            *config, *index, jobs@[i]),
                    forall|d2: int, t2: int, g: u8|
                        (d2 < d || (d2 == d && t2 < t))
                            && #[trigger] catalog_table_qualifies(*catalog, *config,
                                *index, d2, t2, g)
                            ==> exists|i: int|
                                0 <= i < jobs@.len()
                                    && (#[trigger] jobs@[i]).database_id
                                        == catalog.inner.databases.entries@[d2].res.id
                                    && jobs@[i].table_id == catalog.inner.databases
                                        .entries@[d2].res.tables.entries@[t2]
                                        .res.table_id
                                    && jobs@[i].source_generation == g,
                decreases db.tables.entries@.len() - t,
            {
                let ghost jobs_at_entry = jobs@;
                let table = &db.tables.entries[t].res;
                if !table.deleted {
                    let files = index.get_files(db.id, table.table_id);
                    let new_jobs = identify_jobs_for_table(config, db.id,
                        table.table_id, &table.table_name, &table.sort_key, &files);
                    let mut j: usize = 0;
                    while j < new_jobs.len()
                        invariant
                            catalog.wf(),
                            index.wf(),
                            d < catalog.inner.databases.entries@.len(),
                            db == &catalog.inner.databases.entries@[d as int].res,
                            !db.deleted,
                            t < db.tables.entries@.len(),
                            table == &db.tables.entries@[t as int].res,
                            !table.deleted,
                            files@ == index.spec_files(db.id, table.table_id),
                            j <= new_jobs@.len(),
                            forall|i: int|
                                0 <= i < new_jobs@.len() ==> {
                                    let job = #[trigger] new_jobs@[i];
                                    &&& job.database_id == db.id
                                    &&& job.table_id == table.table_id
                                    &&& gen_qualifies(*config, files@,
                                        job.source_generation)
                                    &&& job.target_generation
                                        == job.source_generation + 1
                                    &&& job.files@ == gen_bucket(files@,
                                        job.source_generation)
                                    &&& job.sort_key@ == table.sort_key@
                                },
                            forall|g: u8|
                                1 <= g < MAX_GENERATION
                                    && #[trigger] gen_qualifies(*config, files@, g)
                                    ==> exists|i: int|
                                        0 <= i < new_jobs@.len()
                                            && (#[trigger] new_jobs@[i])
                                                .source_generation == g,
                            jobs@.len() == jobs_at_entry.len() + j,
                            forall|i: int|
                                0 <= i < jobs_at_entry.len()
                                    ==> #[trigger] jobs@[i] == jobs_at_entry[i],
                            forall|m: int|
                                0 <= m < j ==> {
                                    let copied = #[trigger] jobs@[
                                        jobs_at_entry.len() + m];
                                    &&& copied.database_id == new_jobs@[m].database_id
                                    &&& copied.table_id == new_jobs@[m].table_id
                                    &&& copied.source_generation
                                        == new_jobs@[m].source_generation
                                    &&& copied.target_generation
                                        == new_jobs@[m].target_generation
                                    &&& copied.files@ == new_jobs@[m].files@
                                    &&& crate::eqv::strings_eqv(copied.sort_key@,
                                        new_jobs@[m].sort_key@)
                                },
                        decreases new_jobs@.len() - j,
                    {
                        let job = &new_jobs[j];
                        let ghost before_push = jobs@;
                        jobs.push(CompactionJob {
                            database_id: job.database_id,
                            table_id: job.table_id,
                            table_name: job.table_name.clone(),
                            source_generation: job.source_generation,
                            target_generation: job.target_generation,
                            files: dup_files(&job.files),
                            sort_key: clone_strings(&job.sort_key),
                        });
                        j += 1;
                        proof {
                            assert(forall|i: int|
                                0 <= i < before_push.len() ==> #[trigger] jobs@[i]
                                    == before_push[i]);
                        }
                    }
                    proof {
                        // every copied job belongs to this table position
                        assert forall|i: int| 0 <= i < jobs@.len() implies
                            #[trigger] job_from_catalog(*catalog, *config, *index,
                                jobs@[i]) by {
                            if i >= jobs_at_entry.len() {
                                let m = i - jobs_at_entry.len();
                                assert(jobs@[jobs_at_entry.len() + m] == jobs@[i]);
                                let copied = jobs@[jobs_at_entry.len() + m];
                                assert(copied == jobs@[i]);
                                assert(new_jobs@[m].database_id == db.id);
                                assert(catalog.inner.databases.entries@[d as int].res
                                    == *db);
                                assert(!catalog.inner.databases.entries@[d as int]
                                    .res.tables.entries@[t as int].res.deleted);
                                assert(db.tables.entries@[t as int].res == *table);
                                assert(jobs@[i].files@ == new_jobs@[m].files@);
                                assert(jobs@[i].source_generation
                                    == new_jobs@[m].source_generation);
                                assert(new_jobs@[m].files@ == gen_bucket(files@,
                                    new_jobs@[m].source_generation));
                                assert(files@ == index.spec_files(db.id,
                                    table.table_id));
                                assert(jobs@[i].files@ == gen_bucket(
                                    index.spec_files(db.id, table.table_id),
                                    jobs@[i].source_generation));
                                assert(crate::eqv::strings_eqv(jobs@[i].sort_key@,
                                    new_jobs@[m].sort_key@));
                                assert(new_jobs@[m].sort_key@ == table.sort_key@);
                                assert(crate::eqv::strings_eqv(jobs@[i].sort_key@,
                                    catalog.inner.databases.entries@[d as int]
                                        .res.tables.entries@[t as int].res.sort_key@));
                            }
                        }
                        // and every qualifying generation of it got one
                        assert forall|d2: int, t2: int, g: u8|
                            (d2 < d || (d2 == d && t2 < t + 1))
                                && #[trigger] catalog_table_qualifies(*catalog, *config,
                                    *index, d2, t2, g)
                            implies exists|i: int|
                                0 <= i < jobs@.len()
                                    && (#[trigger] jobs@[i]).database_id
                                        == catalog.inner.databases.entries@[d2].res.id
                                    && jobs@[i].table_id == catalog.inner.databases
                                        .entries@[d2].res.tables.entries@[t2]
                                        .res.table_id
                                    && jobs@[i].source_generation == g by {
                            if d2 < d || (d2 == d && t2 < t) {
                                let i = choose|i: int|
                                    0 <= i < jobs_at_entry.len()
                                        && (#[trigger] jobs_at_entry[i]).database_id
                                            == catalog.inner.databases.entries@[d2]
                                                .res.id
                                        && jobs_at_entry[i].table_id == catalog.inner
                                            .databases.entries@[d2].res.tables
                                            .entries@[t2].res.table_id
                                        && jobs_at_entry[i].source_generation == g;
                                assert(jobs@[i] == jobs_at_entry[i]);
                            } else {
                                reveal(gen_qualifies);
                                assert(gen_qualifies(*config, files@, g));
                                assert(1 <= g < MAX_GENERATION);
                                let m = choose|m: int|
                                    0 <= m < new_jobs@.len()
                                        && (#[trigger] new_jobs@[m]).source_generation
                                            == g;
                                assert(jobs@[jobs_at_entry.len() + m].source_generation
                                    == g);
                                assert(jobs@[jobs_at_entry.len() + m].database_id
                                    == db.id);
                            }
                        }
                    }
                } else {
                    proof {
                        assert forall|d2: int, t2: int, g: u8|
                            (d2 < d || (d2 == d && t2 < t + 1))
                                && #[trigger] catalog_table_qualifies(*catalog, *config,
                                    *index, d2, t2, g)
                            implies exists|i: int|
                                0 <= i < jobs@.len()
                                    && (#[trigger] jobs@[i]).database_id
                                        == catalog.inner.databases.entries@[d2].res.id
                                    && jobs@[i].table_id == catalog.inner.databases
                                        .entries@[d2].res.tables.entries@[t2]
                                        .res.table_id
                                    && jobs@[i].source_generation == g by {
                            assert(!(d2 == d && t2 == t));
                        }
                    }
                }
                t += 1;
            }
        } else {
            proof {
                assert forall|d2: int, t2: int, g: u8|
                    d2 < d + 1 && #[trigger] catalog_table_qualifies(*catalog, *config,
                        *index, d2, t2, g)
                    implies exists|i: int|
                        0 <= i < jobs@.len()
                            && (#[trigger] jobs@[i]).database_id
                                == catalog.inner.databases.entries@[d2].res.id
                            && jobs@[i].table_id == catalog.inner.databases.entries@[d2]
                                .res.tables.entries@[t2].res.table_id
                            && jobs@[i].source_generation == g by {
                    assert(d2 != d);
                }
            }
        }
        d += 1;
    }
    jobs
}

/// Finishes a compaction job: checks that the outputs are ordered by
/// minimum time, and atomically swaps the job's inputs for its outputs in
/// the persisted-files index. A failing job leaves the index as it was.
pub fn complete_compaction_job(index: &mut PersistedFiles, job: &CompactionJob,
    outputs: Vec<ParquetFile>) -> (r: Result<CompactionResult, CompactionError>)
    requires
        old(index).wf(),
    ensures
        final(index).wf(),
        r matches Err(_) ==> *final(index) == *old(index),
        r matches Err(e) ==> (e is OutputsNotOrdered || e is IndexRejected),
        (r matches Err(e) && e is OutputsNotOrdered) <==> (exists|i: int|
            1 <= i < outputs@.len() && (#[trigger] outputs@[i]).min_time
                < outputs@[i - 1].min_time),
        ({
            let combined = old(index).spec_files(job.database_id, job.table_id).filter(
                crate::files::not_removed(file_ids(job.files@))) + outputs@;
            (forall|i: int|
                1 <= i < outputs@.len() ==> (#[trigger] outputs@[i]).min_time
                    >= outputs@[i - 1].min_time)
                && (forall|i: int| 0 <= i < combined.len() ==> (#[trigger] combined[i]).wf())
                && (forall|i: int, j: int|
                    0 <= i < j < combined.len() ==> (#[trigger] combined[i]).id
                        != (#[trigger] combined[j]).id)
        }) ==> r is Ok,
        r matches Ok(result) ==> {
            &&& result.compacted_files@ == outputs@
            &&& forall|i: int|
                1 <= i < result.compacted_files@.len()
                    ==> (#[trigger] result.compacted_files@[i]).min_time
                        >= result.compacted_files@[i - 1].min_time
            &&& final(index).spec_files(job.database_id, job.table_id)
                == old(index).spec_files(job.database_id, job.table_id).filter(
                    crate::files::not_removed(file_ids(job.files@))) + result.compacted_files@
            &&& result.deleted_files@ == job.files@
            &&& forall|d2: DbId, t2: TableId|
                !(d2 == job.database_id && t2 == job.table_id)
                    ==> #[trigger] final(index).spec_files(d2, t2)
                        == old(index).spec_files(d2, t2)
        },
{
    match validate_compacted_data(&outputs) {
        Ok(()) => {},
        Err(e) => {
            return Err(e);
        },
    }
    let mut removed_ids: Vec<crate::types::ParquetFileId> = Vec::new();
    let mut i: usize = 0;
    while i < job.files.len()
        invariant
            *index == *old(index),
            i <= job.files@.len(),
            removed_ids@ =~= file_ids(job.files@.subrange(0, i as int)),
        decreases job.files@.len() - i,
    {
        removed_ids.push(job.files[i].id);
        i += 1;
        proof {
            assert(removed_ids@ =~= file_ids(job.files@.subrange(0, i as int)));
        }
    }
    proof {
        assert(job.files@.subrange(0, job.files@.len() as int) =~= job.files@);
    }
    let compacted = dup_files(&outputs);
    match index.apply_compaction(job.database_id, job.table_id, outputs, &removed_ids) {
        Ok(()) => {},
        Err(_) => {
            return Err(CompactionError::IndexRejected);
        },
    }
    let total_input_size = sum_sizes(&job.files);
    let total_output_size = sum_sizes(&compacted);
    let total_rows_compacted = sum_rows(&compacted);
    let size_reduction = if total_input_size >= total_output_size {
        total_input_size - total_output_size
    } else {
        0
    };
    Ok(CompactionResult {
        compacted_files: compacted,
        deleted_files: dup_files(&job.files),
        total_size_reduction: size_reduction,
        total_rows_compacted,
    })
}

/// The ids of a list of files, in order.
pub open spec fn file_ids(files: Seq<ParquetFile>) -> Seq<crate::types::ParquetFileId> {
    files.map(|i: int, f: ParquetFile| f.id)
}

/// The total size of the files as an unbounded count.
pub open spec fn spec_total_size(files: Seq<ParquetFile>) -> nat
    decreases files.len(),
{
    if files.len() == 0 {
        0
    } else {
        spec_total_size(files.drop_last()) + files.last().size_bytes as nat
    }
}

/// The total row count of the files as an unbounded count.
pub open spec fn spec_total_rows(files: Seq<ParquetFile>) -> nat
    decreases files.len(),
{
    if files.len() == 0 {
        0
    } else {
        spec_total_rows(files.drop_last()) + files.last().row_count as nat
    }
}

/// The total size of the files, saturating at the largest representable
/// value.
fn sum_sizes(files: &Vec<ParquetFile>) -> (r: u64)
    ensures
        r == if spec_total_size(files@) > u64::MAX {
            u64::MAX as nat
        } else {
            spec_total_size(files@)
        },
{
    let mut total: u64 = 0;
    let mut i: usize = 0;
    while i < files.len()
        invariant
            i <= files@.len(),
            total == if spec_total_size(files@.subrange(0, i as int)) > u64::MAX {
                u64::MAX as nat
            } else {
                spec_total_size(files@.subrange(0, i as int))
            },
        decreases files@.len() - i,
    {
        proof {
            assert(files@.subrange(0, (i + 1) as int).drop_last()
                =~= files@.subrange(0, i as int));
        }
        if total <= u64::MAX - files[i].size_bytes {
            total = total + files[i].size_bytes;
        } else {
            total = u64::MAX;
        }
        i += 1;
    }
    proof {
        assert(files@.subrange(0, files@.len() as int) =~= files@);
    }
    total
}

/// The total row count of the files, saturating at the largest
/// representable value.
fn sum_rows(files: &Vec<ParquetFile>) -> (r: u64)
    ensures
        r == if spec_total_rows(files@) > u64::MAX {
            u64::MAX as nat
        } else {
            spec_total_rows(files@)
        },
{
    let mut total: u64 = 0;
    let mut i: usize = 0;
    while i < files.len()
        invariant
            i <= files@.len(),
            total == if spec_total_rows(files@.subrange(0, i as int)) > u64::MAX {
                u64::MAX as nat
            } else {
                spec_total_rows(files@.subrange(0, i as int))
            },
        decreases files@.len() - i,
    {
        proof {
            assert(files@.subrange(0, (i + 1) as int).drop_last()
                =~= files@.subrange(0, i as int));
        }
        if total <= u64::MAX - files[i].row_count {
            total = total + files[i].row_count;
        } else {
            total = u64::MAX;
        }
        i += 1;
    }
    proof {
        assert(files@.subrange(0, files@.len() as int) =~= files@);
    }
    total
}

} // verus!
