//! The persisted-files index: per (database, table), the Parquet files that
//! have been registered, each with its time range and size.
//!
//! The index's invariant carries what every reader relies on: a registered
//! file's time range is ordered, and any two files registered to the same
//! table are disjoint in id. Eviction is driven by compaction and hard
//! deletion alone.

use vstd::prelude::*;

use crate::errors::CatalogError;
use crate::types::{DbId, ParquetFileId, TableId};

verus! {

/// A Parquet file registered to a table.
pub struct ParquetFile {
    pub id: ParquetFileId,
    pub path: String,
    pub size_bytes: u64,
    pub row_count: u64,
    /// The start of the duration bucket the file's rows fall into.
    pub chunk_time: i64,
    pub min_time: i64,
    pub max_time: i64,
}

impl ParquetFile {
    /// A registered file's time range is ordered.
    pub open spec fn wf(self) -> bool {
        self.min_time <= self.max_time
    }

    /// A copy of this file's descriptor.
    pub fn duplicate(&self) -> (r: Self)
        ensures
            r == *self,
    {
        ParquetFile {
            id: self.id,
            path: self.path.clone(),
            size_bytes: self.size_bytes,
            row_count: self.row_count,
            chunk_time: self.chunk_time,
            min_time: self.min_time,
            max_time: self.max_time,
        }
    }
}

/// Copies a list of file descriptors.
pub fn dup_files(v: &Vec<ParquetFile>) -> (r: Vec<ParquetFile>)
    ensures
        r@ == v@,
{
    let mut r: Vec<ParquetFile> = Vec::new();
    let mut i: usize = 0;
    while i < v.len()
        invariant
            i <= v@.len(),
            r@ =~= v@.subrange(0, i as int),
        decreases v@.len() - i,
    {
        r.push(v[i].duplicate());
        i += 1;
        proof {
            assert(r@ =~= v@.subrange(0, i as int));
        }
    }
    proof {
        assert(r@ =~= v@);
    }
    r
}

/// The files of one table.
pub struct TableFiles {
    pub db_id: DbId,
    pub table_id: TableId,
    pub files: Vec<ParquetFile>,
}

impl TableFiles {
    /// Every file's range is ordered and ids are pairwise distinct.
    pub open spec fn wf(self) -> bool {
        &&& forall|i: int| 0 <= i < self.files@.len() ==> (#[trigger] self.files@[i]).wf()
        &&& forall|i: int, j: int|
            0 <= i < j < self.files@.len()
                ==> (#[trigger] self.files@[i]).id != (#[trigger] self.files@[j]).id
    }
}

/// The persisted-files index over every table.
pub struct PersistedFiles {
    pub tables: Vec<TableFiles>,
}

impl PersistedFiles {
    /// Tables appear at most once, and each table's files are well formed.
    pub open spec fn wf(self) -> bool {
        &&& forall|i: int, j: int|
            0 <= i < j < self.tables@.len()
                ==> !((#[trigger] self.tables@[i]).db_id == (#[trigger] self.tables@[j]).db_id
                    && self.tables@[i].table_id == self.tables@[j].table_id)
        &&& forall|i: int| 0 <= i < self.tables@.len() ==> (#[trigger] self.tables@[i]).wf()
    }

    pub open spec fn spec_has_table(self, db_id: DbId, table_id: TableId) -> bool {
        exists|i: int|
            0 <= i < self.tables@.len() && (#[trigger] self.tables@[i]).db_id == db_id
                && self.tables@[i].table_id == table_id
    }

    pub open spec fn idx_of_table(self, db_id: DbId, table_id: TableId) -> int {
        choose|i: int|
            0 <= i < self.tables@.len() && (#[trigger] self.tables@[i]).db_id == db_id
                && self.tables@[i].table_id == table_id
    }

    /// The registered files of a table, or the empty list.
    pub open spec fn spec_files(self, db_id: DbId, table_id: TableId) -> Seq<ParquetFile> {
        if self.spec_has_table(db_id, table_id) {
            self.tables@[self.idx_of_table(db_id, table_id)].files@
        } else {
            Seq::empty()
        }
    }

    pub fn new() -> (r: Self)
        ensures
            r.wf(),
            r.tables@.len() == 0,
    {
        PersistedFiles { tables: Vec::new() }
    }

    /// The position of a table's entry, if it has one.
    fn find_table(&self, db_id: DbId, table_id: TableId) -> (r: Option<usize>)
        requires
            self.wf(),
        ensures
            match r {
                Some(i) => i < self.tables@.len() && self.tables@[i as int].db_id == db_id
                    && self.tables@[i as int].table_id == table_id
                    && i == self.idx_of_table(db_id, table_id),
                None => !self.spec_has_table(db_id, table_id),
            },
    {
        let mut i: usize = 0;
        while i < self.tables.len()
            invariant
                self.wf(),
                i <= self.tables@.len(),
                forall|k: int|
                    0 <= k < i ==> !((#[trigger] self.tables@[k]).db_id == db_id
                        && self.tables@[k].table_id == table_id),
            decreases self.tables@.len() - i,
        {
            if self.tables[i].db_id.0 == db_id.0 && self.tables[i].table_id.0 == table_id.0 {
                return Some(i);
            }
            i += 1;
        }
        None
    }

    /// The files registered to a table, newest additions last; a table with
    /// nothing registered yields the empty list.
    pub fn get_files(&self, db_id: DbId, table_id: TableId) -> (r: Vec<ParquetFile>)
        requires
            self.wf(),
        ensures
            r@ == self.spec_files(db_id, table_id),
    {
        match self.find_table(db_id, table_id) {
            Some(i) => dup_files(&self.tables[i].files),
            None => Vec::new(),
        }
    }

    /// Registers files to a table. Nothing changes when it fails: with
    /// `InvalidConfiguration` when a file's time range is unordered, and
    /// with `AlreadyExists` when an id is already registered to the table
    /// or doubled in the input.
    pub fn add_files(&mut self, db_id: DbId, table_id: TableId, files: Vec<ParquetFile>)
        -> (r: Result<(), CatalogError>)
        requires
            old(self).wf(),
        ensures
            final(self).wf(),
            r matches Err(_) ==> *final(self) == *old(self),
            r matches Err(e) ==> (e is InvalidConfiguration || e is AlreadyExists),
            r matches Err(e) ==> e is InvalidConfiguration ==> (exists|i: int|
                0 <= i < files@.len() && !(#[trigger] files@[i]).wf()),
            r matches Err(e) ==> e is AlreadyExists ==> ((exists|i: int|
                0 <= i < files@.len() && seq_contains_file_id(
                    old(self).spec_files(db_id, table_id), (#[trigger] files@[i]).id))
                || (exists|i: int, j: int|
                    0 <= i < j < files@.len() && (#[trigger] files@[i]).id
                        == (#[trigger] files@[j]).id)),
            ((forall|i: int| 0 <= i < files@.len() ==> (#[trigger] files@[i]).wf())
                && (forall|i: int|
                    0 <= i < files@.len() ==> !seq_contains_file_id(
                        old(self).spec_files(db_id, table_id), (#[trigger] files@[i]).id))
                && (forall|i: int, j: int|
                    0 <= i < j < files@.len() ==> (#[trigger] files@[i]).id
                        != (#[trigger] files@[j]).id)) ==> r is Ok,
            r matches Ok(()) ==> {
                &&& final(self).spec_files(db_id, table_id)
                    == old(self).spec_files(db_id, table_id) + files@
                &&& forall|d2: DbId, t2: TableId|
                    !(d2 == db_id && t2 == table_id)
                        ==> #[trigger] final(self).spec_files(d2, t2)
                            == old(self).spec_files(d2, t2)
            },
    {
        // validation
        let existing_at = self.find_table(db_id, table_id);
        let mut i: usize = 0;
        while i < files.len()
            invariant
                old(self).wf(),
                *self == *old(self),
                i <= files@.len(),
                match existing_at {
                    Some(k) => k < self.tables@.len()
                        && self.tables@[k as int].db_id == db_id
                        && self.tables@[k as int].table_id == table_id
                        && k == self.idx_of_table(db_id, table_id),
                    None => !self.spec_has_table(db_id, table_id),
                },
                forall|k: int| 0 <= k < i ==> (#[trigger] files@[k]).wf(),
                forall|k: int|
                    0 <= k < i ==> !seq_contains_file_id(
                        old(self).spec_files(db_id, table_id), (#[trigger] files@[k]).id),
                forall|k1: int, k2: int|
                    0 <= k1 < k2 < i ==> (#[trigger] files@[k1]).id
                        != (#[trigger] files@[k2]).id,
            decreases files@.len() - i,
        {
            if files[i].min_time > files[i].max_time {
                return Err(CatalogError::InvalidConfiguration);
            }
            match existing_at {
                Some(k) => {
                    let table = &self.tables[k];
                    let mut f: usize = 0;
                    while f < table.files.len()
                        invariant
                            old(self).wf(),
                            *self == *old(self),
                            i < files@.len(),
                            k < self.tables@.len(),
                            self.tables@[k as int].db_id == db_id,
                            self.tables@[k as int].table_id == table_id,
                            k == self.idx_of_table(db_id, table_id),
                            table == &self.tables@[k as int],
                            f <= table.files@.len(),
                            forall|m: int|
                                0 <= m < f ==> (#[trigger] table.files@[m]).id
                                    != files@[i as int].id,
                        decreases table.files@.len() - f,
                    {
                        if table.files[f].id.0 == files[i].id.0 {
                            return Err(CatalogError::AlreadyExists);
                        }
                        f += 1;
                    }
                },
                None => {},
            }
            let mut j: usize = 0;
            while j < i
                invariant
                    old(self).wf(),
                    *self == *old(self),
                    i < files@.len(),
                    j <= i,
                    forall|m: int|
                        0 <= m < j ==> (#[trigger] files@[m]).id != files@[i as int].id,
                decreases i - j,
            {
                if files[j].id.0 == files[i].id.0 {
                    return Err(CatalogError::AlreadyExists);
                }
                j += 1;
            }
            i += 1;
        }
        // mutation
        match existing_at {
            Some(k) => {
                let ghost prev = *self;
                let mut entry = self.tables.remove(k);
                let ghost entry_before = entry;
                append_files(&mut entry.files, &files);
                let ghost entry_after = entry;
                self.tables.insert(k, entry);
                proof {
                    assert(self.tables@ =~= prev.tables@.update(k as int, entry_after));
                    lemma_index_wf_after_update(prev, *self, k as int);
                    assert(final(self).spec_has_table(db_id, table_id));
                    assert(final(self).idx_of_table(db_id, table_id) == k as int);
                    assert forall|d2: DbId, t2: TableId|
                        !(d2 == db_id && t2 == table_id) implies
                        #[trigger] final(self).spec_files(d2, t2)
                            == old(self).spec_files(d2, t2) by {
                        lemma_other_tables_unchanged(*old(self), *self, k as int, d2, t2);
                    }
                }
                Ok(())
            },
            None => {
                let entry = TableFiles { db_id, table_id, files };
                let ghost before = self.tables@;
                self.tables.push(entry);
                proof {
                    let n = self.tables@.len() - 1;
                    assert(forall|m: int|
                        0 <= m < n ==> #[trigger] self.tables@[m]
                            == self.tables@.drop_last()[m]);
                    assert(self.tables@[n].db_id == db_id);
                    assert forall|i2: int, j2: int| 0 <= i2 < j2 < self.tables@.len() implies
                        !((#[trigger] self.tables@[i2]).db_id
                            == (#[trigger] self.tables@[j2]).db_id
                            && self.tables@[i2].table_id == self.tables@[j2].table_id) by {
                        if j2 < n {
                            assert(old(self).wf());
                        } else {
                            if self.tables@[i2].db_id == db_id
                                && self.tables@[i2].table_id == table_id {
                                assert(old(self).spec_has_table(db_id, table_id));
                            }
                        }
                    }
                    assert(final(self).idx_of_table(db_id, table_id) == n);
                    assert(old(self).spec_files(db_id, table_id) =~= Seq::<
                        ParquetFile>::empty());
                    assert(final(self).spec_files(db_id, table_id)
                        =~= old(self).spec_files(db_id, table_id) + files@);
                    assert forall|d2: DbId, t2: TableId|
                        !(d2 == db_id && t2 == table_id) implies
                        #[trigger] final(self).spec_files(d2, t2)
                            == old(self).spec_files(d2, t2) by {
                        lemma_other_tables_unchanged_push(*old(self), *self, d2, t2);
                    }
                }
                Ok(())
            },
        }
    }

    /// Atomically replaces a table's files for a finished compaction job:
    /// the inputs leave, the outputs are registered, and a reader sees
    /// either the whole old set or the whole new one. Nothing changes when
    /// it fails: with `InvalidConfiguration` when a resulting file's range
    /// is unordered, and with `AlreadyExists` when ids of the resulting
    /// set collide.
    pub fn apply_compaction(&mut self, db_id: DbId, table_id: TableId,
        outputs: Vec<ParquetFile>, removed: &Vec<ParquetFileId>)
        -> (r: Result<(), CatalogError>)
        requires
            old(self).wf(),
        ensures
            final(self).wf(),
            r matches Err(_) ==> *final(self) == *old(self),
            r matches Err(e) ==> (e is InvalidConfiguration || e is AlreadyExists),
            ({
                let combined = old(self).spec_files(db_id, table_id).filter(
                    not_removed(removed@)) + outputs@;
                (forall|i: int| 0 <= i < combined.len() ==> (#[trigger] combined[i]).wf())
                    && (forall|i: int, j: int|
                        0 <= i < j < combined.len() ==> (#[trigger] combined[i]).id
                            != (#[trigger] combined[j]).id)
            }) ==> r is Ok,
            r matches Ok(()) ==> {
                &&& final(self).spec_files(db_id, table_id)
                    == old(self).spec_files(db_id, table_id).filter(not_removed(removed@))
                        + outputs@
                &&& forall|d2: DbId, t2: TableId|
                    !(d2 == db_id && t2 == table_id)
                        ==> #[trigger] final(self).spec_files(d2, t2)
                            == old(self).spec_files(d2, t2)
            },
    {
        let k = match self.find_table(db_id, table_id) {
            Some(k) => k,
            None => {
                // no files registered: the survivors are empty
                proof {
                    assert(old(self).spec_files(db_id, table_id) =~= Seq::<
                        ParquetFile>::empty());
                    assert(old(self).spec_files(db_id, table_id).filter(
                        not_removed(removed@)) =~= Seq::<ParquetFile>::empty());
                    assert(Seq::<ParquetFile>::empty() + outputs@ =~= outputs@);
                }
                if !check_ranges(&outputs) {
                    return Err(CatalogError::InvalidConfiguration);
                }
                if !check_distinct(&outputs) {
                    return Err(CatalogError::AlreadyExists);
                }
                return self.add_files(db_id, table_id, outputs);
            },
        };
        let survivors = filter_removed(&self.tables[k].files, removed);
        let mut new_files = survivors;
        append_files(&mut new_files, &outputs);
        proof {
            assert(old(self).spec_files(db_id, table_id) == self.tables@[k as int].files@);
            assert(new_files@ == old(self).spec_files(db_id, table_id).filter(
                not_removed(removed@)) + outputs@);
        }
        if !check_ranges(&new_files) {
            return Err(CatalogError::InvalidConfiguration);
        }
        if !check_distinct(&new_files) {
            return Err(CatalogError::AlreadyExists);
        }
        let ghost prev = *self;
        let ghost committed = new_files@;
        let mut entry = self.tables.remove(k);
        entry.files = new_files;
        let ghost entry_after = entry;
        self.tables.insert(k, entry);
        proof {
            assert(self.tables@ =~= prev.tables@.update(k as int, entry_after));
            assert(entry_after.wf());
            lemma_index_wf_after_update(prev, *self, k as int);
            assert(self.idx_of_table(db_id, table_id) == k as int) by {
                assert(self.tables@[k as int].db_id == db_id
                    && self.tables@[k as int].table_id == table_id);
                let i2 = self.idx_of_table(db_id, table_id);
                if i2 != k as int {
                    assert(false);
                }
            }
            assert(self.spec_files(db_id, table_id)
                == old(self).spec_files(db_id, table_id).filter(not_removed(removed@))
                    + outputs@);
            assert forall|d2: DbId, t2: TableId| !(d2 == db_id && t2 == table_id) implies
                #[trigger] self.spec_files(d2, t2) == old(self).spec_files(d2, t2) by {
                lemma_other_tables_unchanged(*old(self), *self, k as int, d2, t2);
            }
        }
        Ok(())
    }
}

/// Whether every file's time range is ordered.
fn check_ranges(files: &Vec<ParquetFile>) -> (r: bool)
    ensures
        r == (forall|i: int| 0 <= i < files@.len() ==> (#[trigger] files@[i]).wf()),
{
    let mut i: usize = 0;
    while i < files.len()
        invariant
            i <= files@.len(),
            forall|m: int| 0 <= m < i ==> (#[trigger] files@[m]).wf(),
        decreases files@.len() - i,
    {
        if files[i].min_time > files[i].max_time {
            proof {
                assert(!files@[i as int].wf());
            }
            return false;
        }
        i += 1;
    }
    true
}

/// Whether the files are pairwise distinct in id.
fn check_distinct(files: &Vec<ParquetFile>) -> (r: bool)
    ensures
        r == (forall|i: int, j: int|
            0 <= i < j < files@.len() ==> (#[trigger] files@[i]).id
                != (#[trigger] files@[j]).id),
{
    let mut i: usize = 0;
    while i < files.len()
        invariant
            i <= files@.len(),
            forall|m1: int, m2: int|
                0 <= m1 < m2 < i ==> (#[trigger] files@[m1]).id != (#[trigger] files@[m2]).id,
        decreases files@.len() - i,
    {
        let mut j: usize = 0;
        while j < i
            invariant
                i < files@.len(),
                j <= i,
                forall|m: int|
                    0 <= m < j ==> (#[trigger] files@[m]).id != files@[i as int].id,
            decreases i - j,
        {
            if files[j].id.0 == files[i].id.0 {
                proof {
                    assert(files@[j as int].id == files@[i as int].id);
                }
                return false;
            }
            j += 1;
        }
        i += 1;
    }
    true
}

/// Whether a file list holds a file with this id.
pub open spec fn seq_contains_file_id(s: Seq<ParquetFile>, id: ParquetFileId) -> bool {
    exists|i: int| 0 <= i < s.len() && (#[trigger] s[i]).id == id
}

/// The predicate keeping the files whose ids are not in the removal list.
pub open spec fn not_removed(removed: Seq<ParquetFileId>) -> spec_fn(ParquetFile) -> bool {
    |f: ParquetFile| !removed.contains(f.id)
}

/// Appends every file of `src` to `dst`.
fn append_files(dst: &mut Vec<ParquetFile>, src: &Vec<ParquetFile>)
    ensures
        final(dst)@ == old(dst)@ + src@,
{
    let mut i: usize = 0;
    while i < src.len()
        invariant
            i <= src@.len(),
            dst@ =~= old(dst)@ + src@.subrange(0, i as int),
        decreases src@.len() - i,
    {
        dst.push(src[i].duplicate());
        i += 1;
        proof {
            assert(dst@ =~= old(dst)@ + src@.subrange(0, i as int));
        }
    }
    proof {
        assert(dst@ =~= old(dst)@ + src@);
    }
}

/// The files whose ids are not in the removal list, in order.
fn filter_removed(files: &Vec<ParquetFile>, removed: &Vec<ParquetFileId>)
    -> (r: Vec<ParquetFile>)
    ensures
        r@ == files@.filter(not_removed(removed@)),
{
    let mut r: Vec<ParquetFile> = Vec::new();
    let mut i: usize = 0;
    while i < files.len()
        invariant
            i <= files@.len(),
            r@ =~= files@.subrange(0, i as int).filter(not_removed(removed@)),
        decreases files@.len() - i,
    {
        let keep = !contains_id(removed, files[i].id);
        if keep {
            r.push(files[i].duplicate());
        }
        i += 1;
        proof {
            let sub = files@.subrange(0, i as int);
            assert(sub.drop_last() =~= files@.subrange(0, (i - 1) as int));
            reveal_with_fuel(Seq::filter, 2);
            assert(not_removed(removed@)(files@[i - 1]) == !removed@.contains(
                files@[i - 1].id));
            assert(r@ =~= sub.filter(not_removed(removed@)));
        }
    }
    proof {
        assert(files@.subrange(0, files@.len() as int) =~= files@);
    }
    r
}

/// Whether the id list holds this id.
fn contains_id(ids: &Vec<ParquetFileId>, id: ParquetFileId) -> (r: bool)
    ensures
        r == ids@.contains(id),
{
    let mut i: usize = 0;
    while i < ids.len()
        invariant
            i <= ids@.len(),
            forall|k: int| 0 <= k < i ==> ids@[k] != id,
        decreases ids@.len() - i,
    {
        if ids[i].0 == id.0 {
            return true;
        }
        i += 1;
    }
    false
}

/// Replacing one table entry with a well-formed one that keeps its keys
/// leaves the index well formed.
proof fn lemma_index_wf_after_update(old_idx: PersistedFiles, new_idx: PersistedFiles, k: int)
    requires
        old_idx.wf(),
        0 <= k < old_idx.tables@.len(),
        new_idx.tables@.len() == old_idx.tables@.len(),
        forall|i: int|
            0 <= i < old_idx.tables@.len() && i != k
                ==> new_idx.tables@[i] == old_idx.tables@[i],
        new_idx.tables@[k].db_id == old_idx.tables@[k].db_id,
        new_idx.tables@[k].table_id == old_idx.tables@[k].table_id,
        new_idx.tables@[k].wf(),
    ensures
        new_idx.wf(),
{
    assert forall|i: int, j: int| 0 <= i < j < new_idx.tables@.len() implies
        !((#[trigger] new_idx.tables@[i]).db_id == (#[trigger] new_idx.tables@[j]).db_id
            && new_idx.tables@[i].table_id == new_idx.tables@[j].table_id) by {
        assert(!((old_idx.tables@[i]).db_id == (old_idx.tables@[j]).db_id
            && old_idx.tables@[i].table_id == old_idx.tables@[j].table_id));
    }
    assert forall|i: int| 0 <= i < new_idx.tables@.len() implies
        (#[trigger] new_idx.tables@[i]).wf() by {
        if i != k {
            assert(old_idx.tables@[i].wf());
        }
    }
}

/// Other tables keep their files when one table's entry is replaced in
/// place.
proof fn lemma_other_tables_unchanged(old_idx: PersistedFiles, new_idx: PersistedFiles,
    k: int, d2: DbId, t2: TableId)
    requires
        old_idx.wf(),
        new_idx.wf(),
        0 <= k < old_idx.tables@.len(),
        new_idx.tables@.len() == old_idx.tables@.len(),
        forall|i: int|
            0 <= i < old_idx.tables@.len() && i != k
                ==> new_idx.tables@[i] == old_idx.tables@[i],
        new_idx.tables@[k].db_id == old_idx.tables@[k].db_id,
        new_idx.tables@[k].table_id == old_idx.tables@[k].table_id,
        !(d2 == old_idx.tables@[k].db_id && t2 == old_idx.tables@[k].table_id),
    ensures
        new_idx.spec_files(d2, t2) == old_idx.spec_files(d2, t2),
{
    if old_idx.spec_has_table(d2, t2) {
        let i = old_idx.idx_of_table(d2, t2);
        assert(i != k);
        assert(new_idx.tables@[i].db_id == d2 && new_idx.tables@[i].table_id == t2);
        assert(new_idx.spec_has_table(d2, t2));
        let i2 = new_idx.idx_of_table(d2, t2);
        if i2 != i {
            assert(new_idx.tables@[i2].db_id == new_idx.tables@[i].db_id
                && new_idx.tables@[i2].table_id == new_idx.tables@[i].table_id);
            assert(false);
        }
    } else {
        if new_idx.spec_has_table(d2, t2) {
            let i2 = new_idx.idx_of_table(d2, t2);
            assert(i2 != k);
            assert(old_idx.tables@[i2].db_id == d2 && old_idx.tables@[i2].table_id == t2);
            assert(false);
        }
        assert(new_idx.spec_files(d2, t2) =~= old_idx.spec_files(d2, t2));
    }
}

/// Other tables keep their files when a table entry is appended.
proof fn lemma_other_tables_unchanged_push(old_idx: PersistedFiles, new_idx: PersistedFiles,
    d2: DbId, t2: TableId)
    requires
        old_idx.wf(),
        new_idx.wf(),
        new_idx.tables@.len() == old_idx.tables@.len() + 1,
        forall|i: int|
            0 <= i < old_idx.tables@.len() ==> new_idx.tables@[i] == old_idx.tables@[i],
        !(d2 == new_idx.tables@.last().db_id && t2 == new_idx.tables@.last().table_id),
    ensures
        new_idx.spec_files(d2, t2) == old_idx.spec_files(d2, t2),
{
    let n = new_idx.tables@.len() - 1;
    if old_idx.spec_has_table(d2, t2) {
        let i = old_idx.idx_of_table(d2, t2);
        assert(new_idx.tables@[i].db_id == d2 && new_idx.tables@[i].table_id == t2);
        assert(new_idx.spec_has_table(d2, t2));
        let i2 = new_idx.idx_of_table(d2, t2);
        if i2 != i {
            assert(false);
        }
    } else {
        if new_idx.spec_has_table(d2, t2) {
            let i2 = new_idx.idx_of_table(d2, t2);
            assert(i2 != n);
            assert(old_idx.tables@[i2].db_id == d2 && old_idx.tables@[i2].table_id == t2);
            assert(false);
        }
        assert(new_idx.spec_files(d2, t2) =~= old_idx.spec_files(d2, t2));
    }
}

/// Every file registered to any table has an ordered time range.
pub proof fn lemma_registered_ranges_ordered(index: PersistedFiles, db_id: DbId,
    table_id: TableId)
    requires
        index.wf(),
    ensures
        forall|i: int|
            0 <= i < index.spec_files(db_id, table_id).len()
                ==> (#[trigger] index.spec_files(db_id, table_id)[i]).min_time
                    <= index.spec_files(db_id, table_id)[i].max_time,
{
    if index.spec_has_table(db_id, table_id) {
        let k = index.idx_of_table(db_id, table_id);
        assert(index.tables@[k].wf());
    }
}

/// Any two files registered to the same table are disjoint in id.
pub proof fn lemma_registered_files_disjoint(index: PersistedFiles, db_id: DbId,
    table_id: TableId)
    requires
        index.wf(),
    ensures
        forall|i: int, j: int|
            0 <= i < j < index.spec_files(db_id, table_id).len()
                ==> (#[trigger] index.spec_files(db_id, table_id)[i]).id
                    != (#[trigger] index.spec_files(db_id, table_id)[j]).id,
{
    if index.spec_has_table(db_id, table_id) {
        let k = index.idx_of_table(db_id, table_id);
        assert(index.tables@[k].wf());
    }
}

} // verus!
