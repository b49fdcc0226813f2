//! The object-store layout and the snapshot loader's planning.
//!
//! The catalog log lives under `<prefix>/catalog/log/<seq>.bin` with the
//! sequence zero-padded to twenty digits; the checkpoint under
//! `<prefix>/catalog/checkpoint.bin`; snapshots under
//! `<prefix>/snapshots/<seq>.json`; and data files under
//! `dbs/<table>-<db>/<table>-<table>/gen<level>/<date>/<hour-minute>/
//! <index>.parquet`. The store itself lives with the caller; these
//! functions build the keys and order the snapshots it finds.

use vstd::prelude::*;

use crate::textutil::{spec_decimal, spec_zero_padded, u64_to_padded_string, u64_to_string};
use crate::types::{DbId, TableId};

verus! {

/// How many digits a zero-padded sequence number takes in an object-store
/// key.
pub const SEQ_PAD_WIDTH: usize = 20;

/// The key of one catalog log record.
pub fn catalog_log_path(prefix: &str, sequence: u64) -> (r: String)
    ensures
        r@ == prefix@ + "/catalog/log/"@ + spec_zero_padded(sequence as nat, 20)
            + ".bin"@,
{
    let mut r = prefix.to_owned();
    r.append("/catalog/log/");
    let padded = u64_to_padded_string(sequence, SEQ_PAD_WIDTH);
    r.append(padded.as_str());
    r.append(".bin");
    r
}

/// The key of the catalog checkpoint.
pub fn catalog_checkpoint_path(prefix: &str) -> (r: String)
    ensures
        r@ == prefix@ + "/catalog/checkpoint.bin"@,
{
    let mut r = prefix.to_owned();
    r.append("/catalog/checkpoint.bin");
    r
}

/// The key of one persisted snapshot.
pub fn snapshot_info_path(prefix: &str, sequence: u64) -> (r: String)
    ensures
        r@ == prefix@ + "/snapshots/"@ + spec_zero_padded(sequence as nat, 20) + ".json"@,
{
    let mut r = prefix.to_owned();
    r.append("/snapshots/");
    let padded = u64_to_padded_string(sequence, SEQ_PAD_WIDTH);
    r.append(padded.as_str());
    r.append(".json");
    r
}

/// The calendar rendering of an instant inside a data-file key: its date
/// and its hour and minute, as `YYYY-MM-DD/HH-MM` in UTC. The exact
/// characters are the calendar rendering of the instant and are not
/// modelled here.
pub uninterp spec fn date_hour_minute_of(ns: i64) -> Seq<char>;

/// Relies on chrono's `DateTime::<Utc>::from_timestamp_nanos` and `format`:
/// the rendering depends on the instant alone.
#[verifier::external_body]
fn format_date_hour_minute(ns: i64) -> (r: String)
    ensures
        r@ == date_hour_minute_of(ns),
{
    let dt = chrono::DateTime::<chrono::Utc>::from_timestamp_nanos(ns);
    dt.format("%Y-%m-%d/%H-%M").to_string()
}

/// The key of one data file: its table and database, the generation it
/// belongs to, the calendar bucket of its chunk time, and its index.
pub fn parquet_file_path(table_name: &str, db_id: DbId, table_id: TableId, generation: u8,
    chunk_time_ns: i64, file_index: u64) -> (r: String)
    ensures
        r@ == "dbs/"@ + table_name@ + "-"@ + spec_decimal(db_id.0 as nat) + "/"@
            + table_name@ + "-"@ + spec_decimal(table_id.0 as nat) + "/gen"@
            + spec_decimal(generation as nat) + "/"@ + date_hour_minute_of(chunk_time_ns)
            + "/"@ + spec_decimal(file_index as nat) + ".parquet"@,
{
    let mut r: String = "dbs/".to_owned();
    r.append(table_name);
    r.append("-");
    let db_dec = u64_to_string(db_id.0);
    r.append(db_dec.as_str());
    r.append("/");
    r.append(table_name);
    r.append("-");
    let table_dec = u64_to_string(table_id.0);
    r.append(table_dec.as_str());
    r.append("/gen");
    let gen_dec = u64_to_string(generation as u64);
    r.append(gen_dec.as_str());
    r.append("/");
    let date = format_date_hour_minute(chunk_time_ns);
    r.append(date.as_str());
    r.append("/");
    let idx_dec = u64_to_string(file_index);
    r.append(idx_dec.as_str());
    r.append(".parquet");
    r
}

/// Whether a sequence runs from its greatest to its least value.
pub open spec fn sorted_desc(s: Seq<u64>) -> bool {
    forall|i: int, j: int| 0 <= i < j < s.len() ==> s[i] >= s[j]
}

/// Orders snapshot sequence numbers newest first.
pub fn sort_sequences_desc(seqs: &Vec<u64>) -> (r: Vec<u64>)
    ensures
        sorted_desc(r@),
        r@.to_multiset() == seqs@.to_multiset(),
        r@.len() == seqs@.len(),
{
    let mut r: Vec<u64> = Vec::new();
    proof {
        broadcast use vstd::seq_lib::group_to_multiset_ensures;
        assert(seqs@.subrange(0, 0) =~= Seq::<u64>::empty());
        assert(r@.to_multiset() =~= seqs@.subrange(0, 0).to_multiset());
    }
    let mut i: usize = 0;
    while i < seqs.len()
        invariant
            i <= seqs@.len(),
            r@.len() == i,
            sorted_desc(r@),
            r@.to_multiset() =~= seqs@.subrange(0, i as int).to_multiset(),
        decreases seqs@.len() - i,
    {
        let x = seqs[i];
        // find the first position whose value falls below x
        let mut p: usize = 0;
        while p < r.len() && r[p] >= x
            invariant
                p <= r@.len(),
                forall|k: int| 0 <= k < p ==> r@[k] >= x,
            decreases r@.len() - p,
        {
            p += 1;
        }
        let ghost r_before = r@;
        r.insert(p, x);
        proof {
            assert(forall|k: int|
                0 <= k < r@.len() ==> r@[k] == if k < p {
                    r_before[k]
                } else if k == p {
                    x
                } else {
                    r_before[k - 1]
                });
            assert(sorted_desc(r@)) by {
                assert forall|a: int, b: int| 0 <= a < b < r@.len() implies r@[a] >= r@[b] by {
                    if a < p && b < p {
                        assert(r_before[a] >= r_before[b]);
                    } else if a < p && b == p {
                        assert(r_before[a] >= x);
                    } else if a < p && b > p {
                        assert(r_before[a] >= r_before[b - 1]);
                    } else if a == p && b > p {
                        if p < r_before.len() {
                            assert(r_before[p as int] < x);
                            assert(b - 1 >= p);
                            if b - 1 > p {
                                assert(r_before[p as int] >= r_before[b - 1]);
                            }
                        }
                    } else {
                        assert(r_before[a - 1] >= r_before[b - 1]);
                    }
                }
            }
            r_before.insert_ensures(p as int, x);
            let a = r_before.subrange(0, p as int);
            let b = r_before.subrange(p as int, r_before.len() as int);
            assert(r@ =~= a.push(x) + b);
            assert(r_before =~= a + b);
            vstd::seq_lib::lemma_multiset_commutative(a.push(x), b);
            vstd::seq_lib::lemma_multiset_commutative(a, b);
            broadcast use vstd::seq_lib::group_to_multiset_ensures;
            assert(a.push(x).to_multiset() =~= a.to_multiset().insert(x));
            assert(r@.to_multiset() =~= r_before.to_multiset().insert(x));
            assert(seqs@.subrange(0, (i + 1) as int)
                =~= seqs@.subrange(0, i as int).push(x));
            assert(seqs@.subrange(0, (i + 1) as int).to_multiset()
                =~= seqs@.subrange(0, i as int).to_multiset().insert(x));
            assert(r@.to_multiset() =~= seqs@.subrange(0, (i + 1) as int).to_multiset());
        }
        i += 1;
    }
    proof {
        assert(seqs@.subrange(0, seqs@.len() as int) =~= seqs@);
    }
    r
}

/// The newest `n` of the snapshot sequence numbers found in the store,
/// newest first: a descending ordering of the whole listing, cut to the
/// first `n`. The loader fetches exactly these, in this order.
pub fn select_newest_snapshots(seqs: &Vec<u64>, n: usize) -> (r: Vec<u64>)
    ensures
        sorted_desc(r@),
        r@.len() == if n <= seqs@.len() {
            n as nat
        } else {
            seqs@.len()
        },
        exists|whole: Seq<u64>|
            whole.to_multiset() == seqs@.to_multiset() && sorted_desc(whole)
                && #[trigger] r@ == whole.subrange(0, r@.len() as int),
{
    let mut sorted = sort_sequences_desc(seqs);
    let ghost whole = sorted@;
    if n < sorted.len() {
        sorted.truncate(n);
    }
    proof {
        assert(sorted@ =~= whole.subrange(0, sorted@.len() as int));
        assert forall|a: int, b: int| 0 <= a < b < sorted@.len() implies
            sorted@[a] >= sorted@[b] by {
            assert(whole[a] >= whole[b]);
        }
    }
    sorted
}

} // verus!
