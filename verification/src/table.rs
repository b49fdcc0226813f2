//! Table and column definitions.
//!
//! A table owns its columns, an ordered series key of tag columns, and the
//! sort key used when its data is persisted. The series key is always a
//! prefix of the sort key; the time column, where the table has one, stands
//! last in the sort key.

use vstd::prelude::*;

use crate::errors::CatalogError;
use crate::log::{DistinctCacheDefinition, FieldDefinition, LastCacheDefinition};
use crate::repository::{RepoEntry, Repository};
use crate::textutil::str_eq;
use crate::types::{ColumnId, InfluxColumnType, TableId};

verus! {

/// The reserved name of the time column.
pub open spec fn time_name() -> Seq<char> {
    seq!['t', 'i', 'm', 'e']
}

/// Definition of a column in the catalog.
pub struct ColumnDefinition {
    /// Unique identifier of the column in the catalog.
    pub id: ColumnId,
    /// User-provided unique name for the column.
    pub name: String,
    /// Influx type of the column.
    pub data_type: InfluxColumnType,
    /// Whether this column can hold `NULL` values.
    pub nullable: bool,
}

impl ColumnDefinition {
    pub fn new(id: ColumnId, name: String, data_type: InfluxColumnType, nullable: bool)
        -> (r: Self)
        ensures
            r.id == id && r.name == name && r.data_type == data_type && r.nullable == nullable,
    {
        ColumnDefinition { id, name, data_type, nullable }
    }
}

/// How many of the entries are tag columns.
pub open spec fn count_tags(s: Seq<RepoEntry<ColumnDefinition>>) -> nat
    decreases s.len(),
{
    if s.len() == 0 {
        0
    } else {
        count_tags(s.drop_last()) + if s.last().res.data_type is Tag { 1nat } else { 0nat }
    }
}

/// Limit on the number of tag columns of one table.
pub const NUM_TAG_COLUMNS_LIMIT: usize = 250;

/// How many of the columns to add are tags.
pub open spec fn count_tag_cols(s: Seq<(ColumnId, String, InfluxColumnType)>) -> nat
    decreases s.len(),
{
    if s.len() == 0 {
        0
    } else {
        count_tag_cols(s.drop_last()) + if s.last().2 is Tag { 1nat } else { 0nat }
    }
}

/// Every series key position names one of the column entries, under the
/// matching name.
pub open spec fn spec_series_consistent(key: Seq<ColumnId>, names: Seq<String>,
    entries: Seq<RepoEntry<ColumnDefinition>>) -> bool {
    &&& key.len() == names.len()
    &&& forall|i: int|
        0 <= i < key.len() ==> exists|k: int|
            0 <= k < entries.len()
                && (#[trigger] entries[k]).id == (#[trigger] key[i]).0
                && entries[k].name@ == names[i]@
}

/// Whether the columns to add are pairwise distinct in id and in name.
pub open spec fn cols_distinct(s: Seq<(ColumnId, String, InfluxColumnType)>) -> bool {
    forall|i: int, j: int|
        0 <= i < j < s.len() ==> (#[trigger] s[i]).0.0 != (#[trigger] s[j]).0.0
            && s[i].1@ != s[j].1@
}

/// Whether every column id leaves room for the cursor.
pub open spec fn cols_ids_in_range(s: Seq<(ColumnId, String, InfluxColumnType)>) -> bool {
    forall|i: int| 0 <= i < s.len() ==> (#[trigger] s[i]).0.0 < u64::MAX
}

/// Whether every series key id names one of the columns.
pub open spec fn key_ids_among(key: Seq<ColumnId>,
    s: Seq<(ColumnId, String, InfluxColumnType)>) -> bool {
    forall|i: int|
        0 <= i < key.len() ==> exists|j: int|
            0 <= j < s.len() && (#[trigger] s[j]).0 == (#[trigger] key[i])
}

/// The ids of the tag columns among the columns to add, in order.
pub open spec fn spec_tag_ids(s: Seq<(ColumnId, String, InfluxColumnType)>) -> Seq<ColumnId>
    decreases s.len(),
{
    if s.len() == 0 {
        Seq::empty()
    } else {
        spec_tag_ids(s.drop_last()) + if s.last().2 is Tag {
            seq![s.last().0]
        } else {
            Seq::empty()
        }
    }
}

/// The names of the tag columns among the columns to add, in order.
pub open spec fn spec_tag_names(s: Seq<(ColumnId, String, InfluxColumnType)>)
    -> Seq<Seq<char>>
    decreases s.len(),
{
    if s.len() == 0 {
        Seq::empty()
    } else {
        spec_tag_names(s.drop_last()) + if s.last().2 is Tag {
            seq![s.last().1@]
        } else {
            Seq::empty()
        }
    }
}

/// One column entry as `add_columns` builds it: same id and name, the given
/// type, nullable unless the column is named `time`.
pub open spec fn entry_matches_added_col(e: RepoEntry<ColumnDefinition>,
    c: (ColumnId, String, InfluxColumnType)) -> bool {
    &&& e.id == c.0.0
    &&& e.name@ == c.1@
    &&& e.res.id == c.0
    &&& e.res.name@ == c.1@
    &&& e.res.data_type == c.2
    &&& e.res.nullable == (c.1@ != time_name())
}

/// One column entry built from one column argument: same id and name, the
/// given type, nullable unless the type is the timestamp.
pub open spec fn entry_matches_col(e: RepoEntry<ColumnDefinition>,
    c: (ColumnId, String, InfluxColumnType)) -> bool {
    &&& e.id == c.0.0
    &&& e.name@ == c.1@
    &&& e.res.id == c.0
    &&& e.res.name@ == c.1@
    &&& e.res.data_type == c.2
    &&& e.res.nullable == !(c.2 is Timestamp)
}

/// Definition of a table in the catalog.
pub struct TableDefinition {
    /// Unique identifier of the table in the catalog.
    pub table_id: TableId,
    /// User-provided unique name for the table.
    pub table_name: String,
    /// Column definitions for the table.
    pub columns: Repository<ColumnDefinition>,
    /// Ordered tag columns identifying a series; a prefix of the sort key.
    pub series_key: Vec<ColumnId>,
    /// The names of the series key columns, in the same order.
    pub series_key_names: Vec<String>,
    /// The column order used when the table's data is persisted.
    pub sort_key: Vec<String>,
    /// Last-value cache definitions for the table.
    pub last_caches: Repository<LastCacheDefinition>,
    /// Distinct-value cache definitions for the table.
    pub distinct_caches: Repository<DistinctCacheDefinition>,
    /// Whether this table has been soft deleted.
    pub deleted: bool,
    /// When the table is scheduled to be hard deleted (nanoseconds).
    pub hard_delete_time: Option<i64>,
}

impl TableDefinition {
    /// Every column entry associates the identifier and name that the
    /// definition itself carries.
    pub open spec fn columns_ok(self) -> bool {
        forall|i: int|
            0 <= i < self.columns.entries@.len() ==> {
                let e = #[trigger] self.columns.entries@[i];
                e.id == e.res.id.0 && e.name@ == e.res.name@
            }
    }

    /// Every series key position names an existing column.
    pub open spec fn series_ok(self) -> bool {
        spec_series_consistent(self.series_key@, self.series_key_names@,
            self.columns.entries@)
    }

    /// The series key is a prefix of the sort key; the time column, where the
    /// table has one, stands last.
    pub open spec fn sort_key_ok(self) -> bool {
        if self.columns.spec_contains_name(time_name()) {
            &&& self.sort_key@.len() == self.series_key_names@.len() + 1
            &&& forall|i: int|
                0 <= i < self.series_key_names@.len()
                    ==> (#[trigger] self.sort_key@[i])@ == self.series_key_names@[i]@
            &&& self.sort_key@.last()@ == time_name()
        } else {
            &&& self.sort_key@.len() == self.series_key_names@.len()
            &&& forall|i: int|
                0 <= i < self.series_key_names@.len()
                    ==> (#[trigger] self.sort_key@[i])@ == self.series_key_names@[i]@
        }
    }

    pub open spec fn wf(self) -> bool {
        &&& self.columns.wf()
        &&& self.columns_ok()
        &&& self.series_ok()
        &&& self.sort_key_ok()
        &&& self.last_caches.wf()
        &&& self.distinct_caches.wf()
        &&& count_tags(self.columns.entries@) <= NUM_TAG_COLUMNS_LIMIT
    }

    /// Create a new empty table definition.
    pub fn new_empty(table_id: TableId, table_name: String) -> (r: Self)
        ensures
            r.wf(),
            r.table_id == table_id,
            r.table_name == table_name,
            r.columns.entries@.len() == 0,
            r.series_key@.len() == 0,
            r.sort_key@.len() == 0,
            !r.deleted,
            r.hard_delete_time is None,
    {
        TableDefinition {
            table_id,
            table_name,
            columns: Repository::new(),
            series_key: Vec::new(),
            series_key_names: Vec::new(),
            sort_key: Vec::new(),
            last_caches: Repository::new(),
            distinct_caches: Repository::new(),
            deleted: false,
            hard_delete_time: None,
        }
    }

    /// Create a new table definition carrying the given columns, with the
    /// given tag columns as its series key.
    pub fn new(
        table_id: TableId,
        table_name: String,
        columns: Vec<(ColumnId, String, InfluxColumnType)>,
        series_key: Vec<ColumnId>,
    ) -> (r: Result<Self, CatalogError>)
        ensures
            r matches Err(e) ==> (e is InvalidConfiguration || e is AlreadyExists
                || e is TooManyTagColumns),
            r matches Err(e) ==> e is AlreadyExists ==> !cols_distinct(columns@),
            r matches Err(e) ==> e is TooManyTagColumns
                ==> count_tag_cols(columns@) > NUM_TAG_COLUMNS_LIMIT,
            r matches Err(e) ==> e is InvalidConfiguration
                ==> (!cols_ids_in_range(columns@) || !key_ids_among(series_key@, columns@)),
            (cols_distinct(columns@) && cols_ids_in_range(columns@)
                && count_tag_cols(columns@) <= NUM_TAG_COLUMNS_LIMIT
                && key_ids_among(series_key@, columns@)) ==> r is Ok,
            r matches Ok(t) ==> {
                &&& t.wf()
                &&& t.table_id == table_id
                &&& t.table_name == table_name
                &&& t.columns.entries@.len() == columns@.len()
                &&& forall|i: int|
                    0 <= i < columns@.len() ==> entry_matches_col(
                        #[trigger] t.columns.entries@[i], columns@[i])
                &&& t.series_key@ == series_key@
                &&& forall|i: int|
                    0 <= i < t.series_key@.len() ==> exists|j: int|
                        0 <= j < columns@.len()
                            && (#[trigger] columns@[j]).0 == (#[trigger] t.series_key@[i])
                            && t.series_key_names@[i]@ == columns@[j].1@
                &&& !t.deleted
                &&& t.hard_delete_time is None
            },
    {
        let mut t = Self::new_empty(table_id, table_name);
        let mut i: usize = 0;
        while i < columns.len()
            invariant
                t.columns.wf(),
                t.columns_ok(),
                t.columns.entries@.len() == i,
                i <= columns@.len(),
                forall|k: int|
                    0 <= k < i ==> entry_matches_col(#[trigger] t.columns.entries@[k],
                        columns@[k]),
                t.table_id == table_id,
                t.table_name == table_name,
                t.series_key@.len() == 0,
                t.series_key_names@.len() == 0,
                t.sort_key@.len() == 0,
                t.last_caches.wf(),
                t.distinct_caches.wf(),
                !t.deleted,
                t.hard_delete_time is None,
            decreases columns@.len() - i,
        {
            let (id, name, data_type) = (columns[i].0, columns[i].1.clone(), columns[i].2);
            if id.0 == u64::MAX {
                proof {
                    assert(!cols_ids_in_range(columns@));
                }
                return Err(CatalogError::InvalidConfiguration);
            }
            let nullable = !matches!(data_type, InfluxColumnType::Timestamp);
            let def = ColumnDefinition::new(id, name.clone(), data_type, nullable);
            let ghost before = t.columns.entries@;
            match t.columns.insert(id.0, name, def) {
                Ok(()) => {},
                Err(_) => {
                    proof {
                        // the colliding entry is an earlier column
                        if t.columns.spec_contains_id(id.0) {
                            let k = choose|k: int|
                                0 <= k < t.columns.entries@.len()
                                    && t.columns.entries@[k].id == id.0;
                            assert(columns@[k].0.0 == columns@[i as int].0.0);
                        } else {
                            let k = choose|k: int|
                                0 <= k < t.columns.entries@.len()
                                    && t.columns.entries@[k].name@ == columns@[i as int].1@;
                            assert(columns@[k].1@ == columns@[i as int].1@);
                        }
                        assert(!cols_distinct(columns@));
                    }
                    return Err(CatalogError::AlreadyExists);
                },
            }
            proof {
                let n = t.columns.entries@.len() - 1;
                assert(forall|k: int|
                    0 <= k < n ==> #[trigger] t.columns.entries@[k]
                        == t.columns.entries@.drop_last()[k]);
                assert(t.columns.entries@[n].id == id.0);
                assert(t.columns.entries@[n].res == def);
            }
            i += 1;
        }
        proof {
            lemma_count_tags_matches_cols(t.columns.entries@, columns@);
        }
        if t.count_tag_columns() > NUM_TAG_COLUMNS_LIMIT {
            return Err(CatalogError::TooManyTagColumns);
        }
        let ghost cols_done = t;
        // resolve the series key names
        let mut names: Vec<String> = Vec::new();
        let mut j: usize = 0;
        while j < series_key.len()
            invariant
                t == cols_done,
                cols_done.columns.wf(),
                cols_done.columns_ok(),
                t.columns.entries@.len() == columns@.len(),
                forall|k: int|
                    0 <= k < columns@.len() ==> entry_matches_col(
                        #[trigger] t.columns.entries@[k], columns@[k]),
                j <= series_key@.len(),
                names@.len() == j,
                forall|i: int|
                    0 <= i < j ==> exists|k: int|
                        0 <= k < t.columns.entries@.len()
                            && (#[trigger] t.columns.entries@[k]).id
                                == (#[trigger] series_key@[i]).0
                            && t.columns.entries@[k].name@ == names@[i]@,
                forall|i: int|
                    0 <= i < j ==> exists|k: int|
                        0 <= k < columns@.len()
                            && (#[trigger] columns@[k]).0 == (#[trigger] series_key@[i])
                            && names@[i]@ == columns@[k].1@,
            decreases series_key@.len() - j,
        {
            match t.columns.id_to_name(series_key[j].0) {
                Some(name) => {
                    proof {
                        let k = t.columns.idx_of_id(series_key@[j as int].0);
                        assert(entry_matches_col(t.columns.entries@[k],
                            columns@[k]));
                        assert(columns@[k].0.0 == series_key@[j as int].0);
                        assert(columns@[k].0 == series_key@[j as int]);
                    }
                    names.push(name);
                },
                None => {
                    proof {
                        // no column carries this key id
                        assert forall|k: int| 0 <= k < columns@.len() implies
                            (#[trigger] columns@[k]).0 != series_key@[j as int] by {
                            if columns@[k].0 == series_key@[j as int] {
                                assert(t.columns.entries@[k].id == series_key@[j as int].0);
                                assert(t.columns.spec_contains_id(series_key@[j as int].0));
                            }
                        }
                        assert(!key_ids_among(series_key@, columns@));
                    }
                    return Err(CatalogError::InvalidConfiguration);
                },
            }
            j += 1;
        }
        let has_time = t.columns.contains_name("time");
        let sort_key = Self::make_sort_key(&names, has_time);
        proof {
            reveal_strlit("time");
            assert("time"@ == time_name());
        }
        t.series_key = series_key;
        t.series_key_names = names;
        t.sort_key = sort_key;
        Ok(t)
    }

    /// The sort key: the series key names, with the time column appended
    /// where the table has one.
    pub fn make_sort_key(series_key_names: &Vec<String>, add_time: bool) -> (r: Vec<String>)
        ensures
            if add_time {
                &&& r@.len() == series_key_names@.len() + 1
                &&& forall|i: int|
                    0 <= i < series_key_names@.len()
                        ==> (#[trigger] r@[i])@ == series_key_names@[i]@
                &&& r@.last()@ == time_name()
            } else {
                &&& r@.len() == series_key_names@.len()
                &&& forall|i: int|
                    0 <= i < series_key_names@.len()
                        ==> (#[trigger] r@[i])@ == series_key_names@[i]@
            },
    {
        let mut r: Vec<String> = Vec::new();
        let mut i: usize = 0;
        while i < series_key_names.len()
            invariant
                i <= series_key_names@.len(),
                r@.len() == i,
                forall|k: int|
                    0 <= k < i ==> (#[trigger] r@[k])@ == series_key_names@[k]@,
            decreases series_key_names@.len() - i,
        {
            r.push(series_key_names[i].clone());
            i += 1;
        }
        if add_time {
            let time_col: String = "time".to_owned();
            proof {
                reveal_strlit("time");
            }
            r.push(time_col);
        }
        r
    }

    /// How many tag columns the table has.
    pub fn count_tag_columns(&self) -> (r: usize)
        ensures
            r == count_tags(self.columns.entries@),
    {
        let mut count: usize = 0;
        let mut i: usize = 0;
        while i < self.columns.entries.len()
            invariant
                i <= self.columns.entries@.len(),
                count == count_tags(self.columns.entries@.subrange(0, i as int)),
                count <= i,
            decreases self.columns.entries@.len() - i,
        {
            proof {
                assert(self.columns.entries@.subrange(0, (i + 1) as int).drop_last()
                    =~= self.columns.entries@.subrange(0, i as int));
            }
            if matches!(self.columns.entries[i].res.data_type, InfluxColumnType::Tag) {
                count += 1;
            }
            i += 1;
        }
        proof {
            assert(self.columns.entries@.subrange(0, self.columns.entries@.len() as int)
                =~= self.columns.entries@);
        }
        count
    }

    /// Same count, under the repository's public name.
    pub fn num_tag_columns(&self) -> (r: usize)
        ensures
            r == count_tags(self.columns.entries@),
    {
        self.count_tag_columns()
    }

    pub fn num_columns(&self) -> (r: usize)
        ensures
            r == self.columns.entries@.len(),
    {
        self.columns.len()
    }

    /// Check if the column exists in the table definition.
    pub fn column_exists(&self, column: &str) -> (r: bool)
        requires
            self.wf(),
        ensures
            r == self.columns.spec_contains_name(column@),
    {
        self.columns.contains_name(column)
    }

    pub fn field_type_by_name(&self, name: &str) -> (r: Option<InfluxColumnType>)
        requires
            self.wf(),
        ensures
            match r {
                Some(t) => self.columns.spec_contains_name(name@)
                    && t == self.columns.entries@[self.columns.idx_of_name(name@)].res.data_type,
                None => !self.columns.spec_contains_name(name@),
            },
    {
        match self.columns.get_by_name(name) {
            Some(def) => Some(def.data_type),
            None => None,
        }
    }

    pub fn column_name_to_id(&self, name: &str) -> (r: Option<ColumnId>)
        requires
            self.wf(),
        ensures
            match r {
                Some(id) => self.columns.spec_contains_name(name@)
                    && id.0 == self.columns.entries@[self.columns.idx_of_name(name@)].id,
                None => !self.columns.spec_contains_name(name@),
            },
    {
        match self.columns.name_to_id(name) {
            Some(id) => Some(ColumnId(id)),
            None => None,
        }
    }

    pub fn column_id_to_name(&self, id: ColumnId) -> (r: Option<String>)
        requires
            self.wf(),
        ensures
            match r {
                Some(name) => self.columns.spec_contains_id(id.0)
                    && name@ == self.columns.entries@[self.columns.idx_of_id(id.0)].name@,
                None => !self.columns.spec_contains_id(id.0),
            },
    {
        self.columns.id_to_name(id.0)
    }

    pub fn column_definition(&self, name: &str) -> (r: Option<&ColumnDefinition>)
        requires
            self.wf(),
        ensures
            match r {
                Some(def) => self.columns.spec_contains_name(name@)
                    && def == &self.columns.entries@[self.columns.idx_of_name(name@)].res,
                None => !self.columns.spec_contains_name(name@),
            },
    {
        self.columns.get_by_name(name)
    }

    pub fn column_definition_by_id(&self, id: ColumnId) -> (r: Option<&ColumnDefinition>)
        requires
            self.wf(),
        ensures
            match r {
                Some(def) => self.columns.spec_contains_id(id.0)
                    && def == &self.columns.entries@[self.columns.idx_of_id(id.0)].res,
                None => !self.columns.spec_contains_id(id.0),
            },
    {
        self.columns.get_by_id(id.0)
    }

    pub fn series_key_ids(&self) -> (r: &Vec<ColumnId>)
        ensures
            r == &self.series_key,
    {
        &self.series_key
    }

    pub fn series_key_names(&self) -> (r: &Vec<String>)
        ensures
            r == &self.series_key_names,
    {
        &self.series_key_names
    }

    /// The identifiers of the tag columns, in column order.
    pub fn index_column_ids(&self) -> (r: Vec<ColumnId>)
        ensures
            r@.len() == count_tags(self.columns.entries@),
    {
        let mut v: Vec<ColumnId> = Vec::new();
        let mut i: usize = 0;
        while i < self.columns.entries.len()
            invariant
                i <= self.columns.entries@.len(),
                v@.len() == count_tags(self.columns.entries@.subrange(0, i as int)),
            decreases self.columns.entries@.len() - i,
        {
            proof {
                assert(self.columns.entries@.subrange(0, (i + 1) as int).drop_last()
                    =~= self.columns.entries@.subrange(0, i as int));
            }
            if matches!(self.columns.entries[i].res.data_type, InfluxColumnType::Tag) {
                v.push(self.columns.entries[i].res.id);
            }
            i += 1;
        }
        proof {
            assert(self.columns.entries@.subrange(0, self.columns.entries@.len() as int)
                =~= self.columns.entries@);
        }
        v
    }

    /// Whether the series key already holds `id`.
    fn series_key_contains(&self, id: ColumnId) -> (r: bool)
        ensures
            r == self.series_key@.contains(id),
    {
        let mut i: usize = 0;
        while i < self.series_key.len()
            invariant
                i <= self.series_key@.len(),
                forall|k: int| 0 <= k < i ==> self.series_key@[k] != id,
            decreases self.series_key@.len() - i,
        {
            if self.series_key[i].0 == id.0 {
                return true;
            }
            i += 1;
        }
        false
    }

    /// Add the given columns to this table definition.
    ///
    /// Newly added tag columns are appended to the series key in the order
    /// given, and the sort key is rebuilt whenever the series key or the time
    /// column changes. The call leaves the table untouched when it fails:
    /// with `AlreadyExists` when a column id or name is already taken (or
    /// doubled in the input), with `InvalidColumnType` when a column named
    /// `time` is not a timestamp, and with `TooManyTagColumns` when the tag
    /// columns would exceed their limit.
    #[verifier::spinoff_prover]
    #[verifier::rlimit(100)]
    pub fn add_columns(&mut self, columns: Vec<(ColumnId, String, InfluxColumnType)>)
        -> (r: Result<(), CatalogError>)
        requires
            old(self).wf(),
        ensures
            final(self).wf(),
            r matches Err(e) ==> crate::errors::apply_error(e),
            r matches Err(e) ==> (e is InvalidConfiguration || e is AlreadyExists
                || e is InvalidColumnType || e is TooManyTagColumns),
            r matches Err(e) ==> e is InvalidConfiguration ==> !cols_ids_in_range(columns@),
            r matches Err(e) ==> e is InvalidColumnType ==> (exists|j: int|
                0 <= j < columns@.len() && (#[trigger] columns@[j]).1@ == time_name()
                    && !(columns@[j].2 is Timestamp)),
            r matches Err(e) ==> e is AlreadyExists ==> (!cols_distinct(columns@)
                || exists|j: int|
                    0 <= j < columns@.len()
                        && (old(self).columns.spec_contains_id((#[trigger] columns@[j]).0.0)
                            || old(self).columns.spec_contains_name(columns@[j].1@))),
            r matches Err(e) ==> e is TooManyTagColumns
                ==> count_tags(old(self).columns.entries@) + count_tag_cols(columns@)
                    > NUM_TAG_COLUMNS_LIMIT,
            (cols_distinct(columns@) && cols_ids_in_range(columns@)
                && (forall|j: int|
                    0 <= j < columns@.len()
                        ==> !old(self).columns.spec_contains_id((#[trigger] columns@[j]).0.0)
                            && !old(self).columns.spec_contains_name(columns@[j].1@))
                && (forall|j: int|
                    0 <= j < columns@.len() ==> ((#[trigger] columns@[j]).1@ == time_name()
                        ==> columns@[j].2 is Timestamp))
                && count_tags(old(self).columns.entries@) + count_tag_cols(columns@)
                    <= NUM_TAG_COLUMNS_LIMIT) ==> r is Ok,
            match r {
                Ok(()) => {
                    &&& final(self).columns.entries@.len()
                        == old(self).columns.entries@.len() + columns@.len()
                    &&& forall|j: int|
                        0 <= j < columns@.len() ==> entry_matches_added_col(
                            #[trigger] final(self).columns.entries@[
                                old(self).columns.entries@.len() + j], columns@[j])
                    &&& final(self).table_id == old(self).table_id
                    &&& final(self).table_name == old(self).table_name
                    &&& final(self).deleted == old(self).deleted
                    &&& final(self).hard_delete_time == old(self).hard_delete_time
                    &&& final(self).series_key@
                        == old(self).series_key@ + spec_tag_ids(columns@)
                    &&& final(self).series_key_names@.len() == final(self).series_key@.len()
                    &&& forall|i: int|
                        0 <= i < old(self).series_key@.len()
                            ==> (#[trigger] final(self).series_key_names@[i])@
                                == old(self).series_key_names@[i]@
                    &&& forall|i: int|
                        old(self).series_key@.len() <= i < final(self).series_key@.len()
                            ==> (#[trigger] final(self).series_key_names@[i])@
                                == spec_tag_names(columns@)[
                                    i - old(self).series_key@.len()]
                    &&& forall|i: int|
                        0 <= i < old(self).columns.entries@.len()
                            ==> final(self).columns.entries@[i] == old(self).columns.entries@[i]
                },
                Err(_) => *final(self) == *old(self),
            },
    {
        // validation: nothing is changed unless every column can be added
        proof {
            reveal_strlit("time");
        }
        let mut i: usize = 0;
        let mut new_tags: usize = 0;
        while i < columns.len()
            invariant
                old(self).wf(),
                *self == *old(self),
                i <= columns@.len(),
                new_tags == count_tag_cols(columns@.subrange(0, i as int)),
                new_tags <= i,
                forall|j: int| 0 <= j < i ==> (#[trigger] columns@[j].0).0 < u64::MAX,
                forall|j: int|
                    0 <= j < i ==> !old(self).columns.spec_contains_id(
                        (#[trigger] columns@[j].0).0),
                forall|j: int|
                    0 <= j < i ==> !old(self).columns.spec_contains_name(
                        (#[trigger] columns@[j].1)@),
                forall|j: int|
                    0 <= j < i ==> ((#[trigger] columns@[j].1)@ == time_name()
                        ==> columns@[j].2 is Timestamp),
                forall|j1: int, j2: int|
                    0 <= j1 < j2 < i ==> (#[trigger] columns@[j1].0).0
                        != (#[trigger] columns@[j2].0).0,
                forall|j1: int, j2: int|
                    0 <= j1 < j2 < i ==> (#[trigger] columns@[j1].1)@
                        != (#[trigger] columns@[j2].1)@,
            decreases columns@.len() - i,
        {
            proof {
                reveal_strlit("time");
                assert("time"@ == time_name());
                assert(columns@.subrange(0, (i + 1) as int).drop_last()
                    =~= columns@.subrange(0, i as int));
            }
            let id = columns[i].0;
            if id.0 == u64::MAX {
                return Err(CatalogError::InvalidConfiguration);
            }
            if self.columns.contains_id(id.0) || self.columns.contains_name(columns[i].1.as_str())
            {
                return Err(CatalogError::AlreadyExists);
            }
            if str_eq(columns[i].1.as_str(), "time")
                && !matches!(columns[i].2, InfluxColumnType::Timestamp)
            {
                return Err(CatalogError::InvalidColumnType);
            }
            let mut j: usize = 0;
            while j < i
                invariant
                    old(self).wf(),
                    *self == *old(self),
                    i < columns@.len(),
                    j <= i,
                    forall|k: int|
                        0 <= k < j ==> (#[trigger] columns@[k].0).0 != columns@[i as int].0.0,
                    forall|k: int|
                        0 <= k < j ==> (#[trigger] columns@[k].1)@ != columns@[i as int].1@,
                decreases i - j,
            {
                if columns[j].0.0 == columns[i].0.0
                    || str_eq(columns[j].1.as_str(), columns[i].1.as_str())
                {
                    return Err(CatalogError::AlreadyExists);
                }
                j += 1;
            }
            if matches!(columns[i].2, InfluxColumnType::Tag) {
                new_tags += 1;
            }
            i += 1;
        }
        proof {
            assert(columns@.subrange(0, columns@.len() as int) =~= columns@);
        }
        let existing_tags = self.count_tag_columns();
        if new_tags > NUM_TAG_COLUMNS_LIMIT || existing_tags > NUM_TAG_COLUMNS_LIMIT - new_tags {
            return Err(CatalogError::TooManyTagColumns);
        }
        // mutation: append each column, extending the series key by new tags
        let ghost old_table = *self;
        let mut sort_key_changed = false;
        let mut i: usize = 0;
        while i < columns.len()
            invariant
                old_table.wf(),
                i <= columns@.len(),
                new_tags == count_tag_cols(columns@),
                count_tags(old_table.columns.entries@) + new_tags <= NUM_TAG_COLUMNS_LIMIT,
                forall|j: int| 0 <= j < columns@.len() ==> (#[trigger] columns@[j].0).0 < u64::MAX,
                forall|j: int|
                    0 <= j < columns@.len() ==> !old_table.columns.spec_contains_id(
                        (#[trigger] columns@[j].0).0),
                forall|j: int|
                    0 <= j < columns@.len() ==> !old_table.columns.spec_contains_name(
                        (#[trigger] columns@[j].1)@),
                forall|j: int|
                    0 <= j < columns@.len() ==> ((#[trigger] columns@[j].1)@ == time_name()
                        ==> columns@[j].2 is Timestamp),
                forall|j1: int, j2: int|
                    0 <= j1 < j2 < columns@.len() ==> (#[trigger] columns@[j1].0).0
                        != (#[trigger] columns@[j2].0).0,
                forall|j1: int, j2: int|
                    0 <= j1 < j2 < columns@.len() ==> (#[trigger] columns@[j1].1)@
                        != (#[trigger] columns@[j2].1)@,
                self.columns.wf(),
                self.columns_ok(),
                self.series_ok(),
                self.columns.entries@.len() == old_table.columns.entries@.len() + i,
                forall|k: int|
                    0 <= k < old_table.columns.entries@.len()
                        ==> #[trigger] self.columns.entries@[k]
                            == old_table.columns.entries@[k],
                forall|k: int|
                    old_table.columns.entries@.len() <= k < self.columns.entries@.len()
                        ==> entry_matches_added_col(#[trigger] self.columns.entries@[k],
                            columns@[k - old_table.columns.entries@.len()]),
                count_tags(self.columns.entries@) == count_tags(old_table.columns.entries@)
                    + count_tag_cols(columns@.subrange(0, i as int)),
                self.table_id == old_table.table_id,
                self.table_name == old_table.table_name,
                self.deleted == old_table.deleted,
                self.hard_delete_time == old_table.hard_delete_time,
                self.last_caches == old_table.last_caches,
                self.distinct_caches == old_table.distinct_caches,
                self.sort_key == old_table.sort_key,
                self.series_key@ =~= old_table.series_key@
                    + spec_tag_ids(columns@.subrange(0, i as int)),
                self.series_key_names@.len() == self.series_key@.len(),
                forall|k: int|
                    0 <= k < old_table.series_key@.len()
                        ==> (#[trigger] self.series_key_names@[k])@
                            == old_table.series_key_names@[k]@,
                forall|k: int|
                    old_table.series_key@.len() <= k < self.series_key@.len()
                        ==> (#[trigger] self.series_key_names@[k])@
                            == spec_tag_names(columns@.subrange(0, i as int))[
                                k - old_table.series_key@.len()],
                spec_tag_names(columns@.subrange(0, i as int)).len()
                    == spec_tag_ids(columns@.subrange(0, i as int)).len(),
                !sort_key_changed ==> self.series_key@.len() == old_table.series_key@.len()
                    && (self.columns.spec_contains_name(time_name())
                        == old_table.columns.spec_contains_name(time_name())),
            decreases columns@.len() - i,
        {
            proof {
                assert(columns@.subrange(0, (i + 1) as int).drop_last()
                    =~= columns@.subrange(0, i as int));
            }
            let id = columns[i].0;
            let name = columns[i].1.clone();
            let column_type = columns[i].2;
            let nullable = !str_eq(name.as_str(), "time");
            let def = ColumnDefinition::new(id, name.clone(), column_type, nullable);
            let ghost before = self.columns.entries@;
            proof {
                // the new id and name are absent: not among the old columns,
                // and distinct from the ones already appended
                assert(!self.columns.spec_contains_id(id.0)) by {
                    if self.columns.spec_contains_id(id.0) {
                        let k = choose|k: int|
                            0 <= k < self.columns.entries@.len()
                                && self.columns.entries@[k].id == id.0;
                        if k < old_table.columns.entries@.len() {
                            assert(old_table.columns.spec_contains_id(id.0));
                        }
                    }
                }
                assert(!self.columns.spec_contains_name(name@)) by {
                    if self.columns.spec_contains_name(name@) {
                        let k = choose|k: int|
                            0 <= k < self.columns.entries@.len()
                                && self.columns.entries@[k].name@ == name@;
                        if k < old_table.columns.entries@.len() {
                            assert(old_table.columns.spec_contains_name(name@));
                        }
                    }
                }
            }
            let insert_result = self.columns.insert(id.0, name.clone(), def);
            match insert_result {
                Ok(()) => {},
                Err(e) => {
                    proof {
                        assert(false);
                    }
                    return Err(e);
                },
            }
            proof {
                assert(self.columns.entries@.drop_last() =~= before);
                let n = self.columns.entries@.len() - 1;
                assert(forall|k: int|
                    0 <= k < n ==> #[trigger] self.columns.entries@[k]
                        == self.columns.entries@.drop_last()[k]);
                assert(self.columns.entries@[n].id == id.0);
                assert(self.columns.entries@[n].name@ == name@);
                assert(self.columns.entries@[n].res == def);
                assert(count_tags(self.columns.entries@) == count_tags(before)
                    + if column_type is Tag { 1nat } else { 0nat });
            }
            if matches!(column_type, InfluxColumnType::Tag) {
                proof {
                    // a fresh column id cannot already stand in the series key
                    assert(!self.series_key@.contains(id)) by {
                        if self.series_key@.contains(id) {
                            let si = choose|si: int|
                                0 <= si < self.series_key@.len()
                                    && self.series_key@[si] == id;
                            let k = choose|k: int|
                                0 <= k < before.len() && before[k].id
                                    == self.series_key@[si].0
                                    && before[k].name@ == self.series_key_names@[si]@;
                            if k < old_table.columns.entries@.len() {
                                assert(old_table.columns.spec_contains_id(id.0));
                            }
                        }
                    }
                }
                if !self.series_key_contains(id) {
                    self.series_key.push(id);
                    self.series_key_names.push(name.clone());
                    sort_key_changed = true;
                    proof {
                        let n = self.columns.entries@.len() - 1;
                        assert(self.columns.entries@[n].id == id.0);
                        assert(self.columns.entries@[n].name@ == name@);
                        assert(forall|si: int|
                            0 <= si < self.series_key@.len() - 1
                                ==> exists|k: int|
                                    0 <= k < before.len()
                                        && (#[trigger] before[k]).id
                                            == (#[trigger] self.series_key@[si]).0
                                        && before[k].name@ == self.series_key_names@[si]@);
                        assert forall|si: int| 0 <= si < self.series_key@.len() implies
                            exists|k: int|
                                0 <= k < self.columns.entries@.len()
                                    && (#[trigger] self.columns.entries@[k]).id
                                        == (#[trigger] self.series_key@[si]).0
                                    && self.columns.entries@[k].name@
                                        == self.series_key_names@[si]@ by {
                            if si < self.series_key@.len() - 1 {
                                let k = choose|k: int|
                                    0 <= k < before.len()
                                        && (#[trigger] before[k]).id == self.series_key@[si].0
                                        && before[k].name@ == self.series_key_names@[si]@;
                                assert(self.columns.entries@[k].id == self.series_key@[si].0);
                            } else {
                                assert(self.columns.entries@[n].id == self.series_key@[si].0);
                            }
                        }
                    }
                } else {
                    proof {
                        assert(false);
                    }
                }
            } else if matches!(column_type, InfluxColumnType::Timestamp) {
                sort_key_changed = true;
            } else {
                proof {
                    reveal_strlit("time");
                    assert(name@ != time_name());
                }
            }
            i += 1;
            proof {
                let sub = columns@.subrange(0, i as int);
                assert(sub.drop_last() =~= columns@.subrange(0, (i - 1) as int));
                if columns@[i - 1].2 is Tag {
                    assert(spec_tag_ids(sub) =~= spec_tag_ids(sub.drop_last())
                        + seq![columns@[i - 1].0]);
                    assert(spec_tag_names(sub) =~= spec_tag_names(sub.drop_last())
                        + seq![columns@[i - 1].1@]);
                } else {
                    assert(spec_tag_ids(sub) =~= spec_tag_ids(sub.drop_last()));
                    assert(spec_tag_names(sub) =~= spec_tag_names(sub.drop_last()));
                }
                assert(self.series_key@ =~= old_table.series_key@ + spec_tag_ids(sub));
                reveal_strlit("time");
                assert("time"@ == time_name());
            }
        }
        proof {
            assert(columns@.subrange(0, columns@.len() as int) =~= columns@);
        }
        if sort_key_changed {
            let has_time = self.columns.contains_name("time");
            proof {
                reveal_strlit("time");
                assert("time"@ == time_name());
            }
            self.sort_key = Self::make_sort_key(&self.series_key_names, has_time);
        } else {
            proof {
                // nothing moved: the old sort key still matches the series key
                assert(self.series_key_names@.len() == old_table.series_key_names@.len());
                assert(forall|k: int|
                    0 <= k < self.sort_key@.len() ==> (#[trigger] self.sort_key@[k])@
                        == old_table.sort_key@[k]@);
                assert(self.sort_key_ok());
            }
        }
        Ok(())
    }

    /// Add the new fields of a log record to this table definition, skipping
    /// the ones that exist with the same type. Fails with
    /// `FieldTypeMismatch`, leaving the table untouched, when a field exists
    /// with a different type. Returns whether anything changed.
    pub fn add_fields(&mut self, fields: &Vec<FieldDefinition>)
        -> (r: Result<bool, CatalogError>)
        requires
            old(self).wf(),
        ensures
            final(self).wf(),
            r matches Err(e) ==> crate::errors::apply_error(e),
            r matches Err(e) ==> (e is FieldTypeMismatch || e is InvalidConfiguration
                || e is AlreadyExists || e is InvalidColumnType || e is TooManyTagColumns),
            r matches Err(e) ==> e is FieldTypeMismatch ==> (exists|k: int|
                0 <= k < fields@.len()
                    && old(self).columns.spec_contains_id((#[trigger] fields@[k]).id.0)
                    && old(self).columns.entries@[old(self).columns.idx_of_id(
                        fields@[k].id.0)].res.data_type
                        != fields@[k].data_type.spec_column_type()),
            match r {
                Ok(changed) => {
                    &&& final(self).table_id == old(self).table_id
                    &&& final(self).table_name == old(self).table_name
                    &&& final(self).deleted == old(self).deleted
                    &&& final(self).hard_delete_time == old(self).hard_delete_time
                    &&& (changed <==> exists|k: int|
                        0 <= k < fields@.len() && !old(self).columns.spec_contains_id(
                            (#[trigger] fields@[k]).id.0))
                    &&& (!changed ==> *final(self) == *old(self))
                },
                Err(_) => *final(self) == *old(self),
            },
    {
        let mut new_fields: Vec<(ColumnId, String, InfluxColumnType)> = Vec::new();
        let mut i: usize = 0;
        while i < fields.len()
            invariant
                old(self).wf(),
                *self == *old(self),
                i <= fields@.len(),
                (new_fields@.len() > 0) == (exists|k: int|
                    0 <= k < i && !old(self).columns.spec_contains_id(
                        (#[trigger] fields@[k]).id.0)),
            decreases fields@.len() - i,
        {
            let field = &fields[i];
            match self.columns.get_by_id(field.id.0) {
                Some(def) => {
                    let existing = def.data_type;
                    let attempted = field.data_type.as_column_type();
                    if !column_type_eq(existing, attempted) {
                        proof {
                            assert(old(self).columns.spec_contains_id(
                                fields@[i as int].id.0));
                        }
                        return Err(CatalogError::FieldTypeMismatch {
                            table_name: self.table_name.clone(),
                            column_name: field.name.clone(),
                            existing,
                            attempted,
                        });
                    }
                },
                None => {
                    new_fields.push((field.id, field.name.clone(),
                        field.data_type.as_column_type()));
                    proof {
                        assert(!old(self).columns.spec_contains_id(fields@[i as int].id.0));
                    }
                },
            }
            i += 1;
        }
        if new_fields.len() == 0 {
            return Ok(false);
        }
        match self.add_columns(new_fields) {
            Ok(()) => {},
            Err(e) => {
                return Err(e);
            },
        }
        Ok(true)
    }
}

impl TableDefinition {
    /// A copy of this table definition. Column entries come out as equal
    /// values; cache entries keep their ids, names and every observable
    /// part.
    #[verifier::spinoff_prover]
    #[verifier::rlimit(100)]
    pub fn duplicate(&self) -> (r: Self)
        ensures
            r.table_id == self.table_id,
            r.table_name == self.table_name,
            r.columns.entries@ == self.columns.entries@,
            r.columns.next_id == self.columns.next_id,
            r.series_key@ == self.series_key@,
            r.series_key_names@ == self.series_key_names@,
            r.sort_key@ == self.sort_key@,
            r.last_caches.next_id == self.last_caches.next_id,
            r.last_caches.entries@.len() == self.last_caches.entries@.len(),
            forall|i: int|
                0 <= i < r.last_caches.entries@.len() ==> {
                    let ea = #[trigger] r.last_caches.entries@[i];
                    let eb = self.last_caches.entries@[i];
                    ea.id == eb.id && ea.name@ == eb.name@
                        && crate::eqv::last_cache_eqv(ea.res, eb.res)
                },
            r.distinct_caches.next_id == self.distinct_caches.next_id,
            r.distinct_caches.entries@.len() == self.distinct_caches.entries@.len(),
            forall|i: int|
                0 <= i < r.distinct_caches.entries@.len() ==> {
                    let ea = #[trigger] r.distinct_caches.entries@[i];
                    let eb = self.distinct_caches.entries@[i];
                    ea.id == eb.id && ea.name@ == eb.name@
                        && crate::eqv::distinct_cache_eqv(ea.res, eb.res)
                },
            r.deleted == self.deleted,
            r.hard_delete_time == self.hard_delete_time,
            self.wf() ==> r.wf(),
            crate::eqv::table_eqv(r, *self),
    {
        let mut columns: Vec<RepoEntry<ColumnDefinition>> = Vec::new();
        let mut i: usize = 0;
        while i < self.columns.entries.len()
            invariant
                i <= self.columns.entries@.len(),
                columns@ =~= self.columns.entries@.subrange(0, i as int),
            decreases self.columns.entries@.len() - i,
        {
            let e = &self.columns.entries[i];
            columns.push(RepoEntry {
                id: e.id,
                name: e.name.clone(),
                res: ColumnDefinition {
                    id: e.res.id,
                    name: e.res.name.clone(),
                    data_type: e.res.data_type,
                    nullable: e.res.nullable,
                },
            });
            i += 1;
            proof {
                assert(columns@ =~= self.columns.entries@.subrange(0, i as int));
            }
        }
        proof {
            assert(columns@ =~= self.columns.entries@);
        }
        let mut last_caches: Vec<RepoEntry<LastCacheDefinition>> = Vec::new();
        let mut i: usize = 0;
        while i < self.last_caches.entries.len()
            invariant
                i <= self.last_caches.entries@.len(),
                last_caches@.len() == i,
                forall|k: int|
                    0 <= k < i ==> {
                        let ea = #[trigger] last_caches@[k];
                        let eb = self.last_caches.entries@[k];
                        ea.id == eb.id && ea.name@ == eb.name@
                            && crate::eqv::last_cache_eqv(ea.res, eb.res)
                    },
            decreases self.last_caches.entries@.len() - i,
        {
            let e = &self.last_caches.entries[i];
            last_caches.push(RepoEntry {
                id: e.id,
                name: e.name.clone(),
                res: LastCacheDefinition {
                    table_id: e.res.table_id,
                    table: e.res.table.clone(),
                    id: e.res.id,
                    name: e.res.name.clone(),
                    key_columns: crate::database::copy_column_ids(&e.res.key_columns),
                    count: e.res.count,
                    ttl_secs: e.res.ttl_secs,
                },
            });
            i += 1;
        }
        let mut distinct_caches: Vec<RepoEntry<DistinctCacheDefinition>> = Vec::new();
        let mut i: usize = 0;
        while i < self.distinct_caches.entries.len()
            invariant
                i <= self.distinct_caches.entries@.len(),
                distinct_caches@.len() == i,
                forall|k: int|
                    0 <= k < i ==> {
                        let ea = #[trigger] distinct_caches@[k];
                        let eb = self.distinct_caches.entries@[k];
                        ea.id == eb.id && ea.name@ == eb.name@
                            && crate::eqv::distinct_cache_eqv(ea.res, eb.res)
                    },
            decreases self.distinct_caches.entries@.len() - i,
        {
            let e = &self.distinct_caches.entries[i];
            distinct_caches.push(RepoEntry {
                id: e.id,
                name: e.name.clone(),
                res: DistinctCacheDefinition {
                    table_id: e.res.table_id,
                    table_name: e.res.table_name.clone(),
                    cache_id: e.res.cache_id,
                    cache_name: e.res.cache_name.clone(),
                    column_ids: crate::database::copy_column_ids(&e.res.column_ids),
                    max_cardinality: e.res.max_cardinality,
                    max_age_seconds: e.res.max_age_seconds,
                },
            });
            i += 1;
        }
        let mut series_key: Vec<ColumnId> = Vec::new();
        let mut i: usize = 0;
        while i < self.series_key.len()
            invariant
                i <= self.series_key@.len(),
                series_key@ =~= self.series_key@.subrange(0, i as int),
            decreases self.series_key@.len() - i,
        {
            series_key.push(self.series_key[i]);
            i += 1;
            proof {
                assert(series_key@ =~= self.series_key@.subrange(0, i as int));
            }
        }
        proof {
            assert(series_key@ =~= self.series_key@);
        }
        let series_key_names = clone_strings(&self.series_key_names);
        let sort_key = clone_strings(&self.sort_key);
        let r = TableDefinition {
            table_id: self.table_id,
            table_name: self.table_name.clone(),
            columns: Repository { entries: columns, next_id: self.columns.next_id },
            series_key,
            series_key_names,
            sort_key,
            last_caches: Repository { entries: last_caches,
                next_id: self.last_caches.next_id },
            distinct_caches: Repository { entries: distinct_caches,
                next_id: self.distinct_caches.next_id },
            deleted: self.deleted,
            hard_delete_time: self.hard_delete_time,
        };
        proof {
            if self.wf() {
                assert(r.columns.wf());
                assert(r.columns_ok());
                assert(r.series_ok());
                assert(r.sort_key_ok());
                assert(r.last_caches.wf());
                assert(r.distinct_caches.wf());
            }
            assert(crate::eqv::table_eqv(r, *self)) by {
                assert(crate::eqv::columns_eqv(r.columns, self.columns));
                assert(crate::eqv::strings_eqv(r.series_key_names@,
                    self.series_key_names@));
                assert(crate::eqv::strings_eqv(r.sort_key@, self.sort_key@));
            }
        }
        r
    }
}

/// A copy of a vector of strings; each element comes out an equal value.
pub fn clone_strings(v: &Vec<String>) -> (r: Vec<String>)
    ensures
        r@ == v@,
{
    let mut r: Vec<String> = Vec::new();
    let mut i: usize = 0;
    while i < v.len()
        invariant
            i <= v@.len(),
            r@ =~= v@.subrange(0, i as int),
        decreases v@.len() - i,
    {
        r.push(v[i].clone());
        i += 1;
        proof {
            assert(r@ =~= v@.subrange(0, i as int));
        }
    }
    proof {
        assert(r@ =~= v@);
    }
    r
}

/// Entries built one-for-one from the columns hold exactly as many tags.
proof fn lemma_count_tags_matches_cols(entries: Seq<RepoEntry<ColumnDefinition>>,
    cols: Seq<(ColumnId, String, InfluxColumnType)>)
    requires
        entries.len() == cols.len(),
        forall|i: int|
            0 <= i < cols.len() ==> entry_matches_col(#[trigger] entries[i], cols[i]),
    ensures
        count_tags(entries) == count_tag_cols(cols),
    decreases entries.len(),
{
    if entries.len() > 0 {
        assert(forall|i: int|
            0 <= i < cols.len() - 1 ==> entries.drop_last()[i] == entries[i]
                && cols.drop_last()[i] == cols[i]);
        assert(forall|i: int|
            0 <= i < cols.drop_last().len() ==> entry_matches_col(
                #[trigger] entries.drop_last()[i], cols.drop_last()[i]));
        lemma_count_tags_matches_cols(entries.drop_last(), cols.drop_last());
        assert(entries.last().res.data_type == cols.last().2);
    }
}

/// For every well-formed table, the series key is a prefix of the sort key,
/// and the time column, where the table has one, stands last in the sort
/// key.
pub proof fn lemma_series_key_prefix_of_sort_key(t: TableDefinition)
    requires
        t.wf(),
    ensures
        t.series_key_names@.len() <= t.sort_key@.len(),
        forall|i: int|
            0 <= i < t.series_key_names@.len()
                ==> (#[trigger] t.sort_key@[i])@ == t.series_key_names@[i]@,
        t.columns.spec_contains_name(time_name())
            ==> t.sort_key@.len() == t.series_key_names@.len() + 1
                && t.sort_key@.last()@ == time_name(),
        !t.columns.spec_contains_name(time_name())
            ==> t.sort_key@.len() == t.series_key_names@.len(),
{
}

/// Whether two column types are the same.
pub fn column_type_eq(a: InfluxColumnType, b: InfluxColumnType) -> (r: bool)
    ensures
        r == (a == b),
{
    match (a, b) {
        (InfluxColumnType::Tag, InfluxColumnType::Tag) => true,
        (InfluxColumnType::Timestamp, InfluxColumnType::Timestamp) => true,
        (InfluxColumnType::Field(fa), InfluxColumnType::Field(fb)) => match (fa, fb) {
            (crate::types::InfluxFieldType::Float, crate::types::InfluxFieldType::Float) => true,
            (crate::types::InfluxFieldType::Integer, crate::types::InfluxFieldType::Integer)
                => true,
            (crate::types::InfluxFieldType::UInteger, crate::types::InfluxFieldType::UInteger)
                => true,
            (crate::types::InfluxFieldType::String, crate::types::InfluxFieldType::String)
                => true,
            (crate::types::InfluxFieldType::Boolean, crate::types::InfluxFieldType::Boolean)
                => true,
            _ => false,
        },
        _ => false,
    }
}

} // verus!
