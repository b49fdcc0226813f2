//! General purpose collection for catalog resources.
//!
//! Each item has a stable numeric identifier and a unique name. The
//! repository keeps its items in insertion order and tracks the next
//! identifier that a newly added resource will receive. Its invariant:
//! identifiers are pairwise distinct, names are pairwise distinct, and every
//! identifier lies below the `next_id` cursor.

use vstd::prelude::*;

use crate::errors::CatalogError;
use crate::textutil::str_eq;

verus! {

/// One resource of a repository together with its identifier and name.
pub struct RepoEntry<R> {
    pub id: u64,
    pub name: String,
    pub res: R,
}

/// Insertion-ordered map from identifier to resource with a bi-directional
/// id/name association and a `next_id` cursor.
pub struct Repository<R> {
    pub entries: Vec<RepoEntry<R>>,
    pub next_id: u64,
}

impl<R> Repository<R> {
    /// The repository's invariant: distinct ids, distinct names, and all ids
    /// below the cursor.
    pub open spec fn wf(self) -> bool {
        &&& forall|i: int, j: int|
            0 <= i < j < self.entries@.len() ==> self.entries@[i].id != self.entries@[j].id
        &&& forall|i: int, j: int|
            0 <= i < j < self.entries@.len() ==> self.entries@[i].name@ != self.entries@[j].name@
        &&& forall|i: int| 0 <= i < self.entries@.len() ==> self.entries@[i].id < self.next_id
    }

    pub open spec fn spec_len(self) -> nat {
        self.entries@.len()
    }

    pub open spec fn spec_contains_id(self, id: u64) -> bool {
        exists|i: int| 0 <= i < self.entries@.len() && self.entries@[i].id == id
    }

    pub open spec fn spec_contains_name(self, name: Seq<char>) -> bool {
        exists|i: int| 0 <= i < self.entries@.len() && self.entries@[i].name@ == name
    }

    /// The position of the entry carrying `id`.
    pub open spec fn idx_of_id(self, id: u64) -> int {
        choose|i: int| 0 <= i < self.entries@.len() && self.entries@[i].id == id
    }

    /// The position of the entry carrying `name`.
    pub open spec fn idx_of_name(self, name: Seq<char>) -> int {
        choose|i: int| 0 <= i < self.entries@.len() && self.entries@[i].name@ == name
    }

    pub fn new() -> (r: Self)
        ensures
            r.wf(),
            r.entries@.len() == 0,
            r.next_id == 0,
    {
        Repository { entries: Vec::new(), next_id: 0 }
    }

    pub fn len(&self) -> (r: usize)
        ensures
            r == self.spec_len(),
    {
        self.entries.len()
    }

    pub fn is_empty(&self) -> (r: bool)
        ensures
            r == (self.spec_len() == 0),
    {
        self.entries.len() == 0
    }

    pub fn next_id(&self) -> (r: u64)
        ensures
            r == self.next_id,
    {
        self.next_id
    }

    /// Moves the cursor. The caller owes that no stored id reaches `id`.
    pub fn set_next_id(&mut self, id: u64)
        requires
            forall|i: int|
                0 <= i < old(self).entries@.len() ==> old(self).entries@[i].id < id,
        ensures
            final(self).entries@ == old(self).entries@,
            final(self).next_id == id,
            old(self).wf() ==> final(self).wf(),
    {
        self.next_id = id;
    }

    /// Hands out the cursor value and advances it.
    pub fn get_and_increment_next_id(&mut self) -> (r: u64)
        requires
            old(self).next_id < u64::MAX,
        ensures
            r == old(self).next_id,
            final(self).next_id == old(self).next_id + 1,
            final(self).entries@ == old(self).entries@,
            old(self).wf() ==> final(self).wf(),
    {
        let id = self.next_id;
        self.next_id = self.next_id + 1;
        id
    }

    /// The position of the entry carrying `id`, if one does.
    pub fn find_id(&self, id: u64) -> (r: Option<usize>)
        requires
            self.wf(),
        ensures
            match r {
                Some(i) => i < self.entries@.len() && self.entries@[i as int].id == id
                    && i == self.idx_of_id(id),
                None => !self.spec_contains_id(id),
            },
    {
        let mut i: usize = 0;
        while i < self.entries.len()
            invariant
                self.wf(),
                i <= self.entries@.len(),
                forall|k: int| 0 <= k < i ==> self.entries@[k].id != id,
            decreases self.entries@.len() - i,
        {
            if self.entries[i].id == id {
                return Some(i);
            }
            i += 1;
        }
        None
    }

    /// The position of the entry carrying `name`, if one does.
    pub fn find_name(&self, name: &str) -> (r: Option<usize>)
        requires
            self.wf(),
        ensures
            match r {
                Some(i) => i < self.entries@.len() && self.entries@[i as int].name@ == name@
                    && i == self.idx_of_name(name@),
                None => !self.spec_contains_name(name@),
            },
    {
        let mut i: usize = 0;
        while i < self.entries.len()
            invariant
                self.wf(),
                i <= self.entries@.len(),
                forall|k: int| 0 <= k < i ==> self.entries@[k].name@ != name@,
            decreases self.entries@.len() - i,
        {
            if str_eq(self.entries[i].name.as_str(), name) {
                return Some(i);
            }
            i += 1;
        }
        None
    }

    pub fn contains_id(&self, id: u64) -> (r: bool)
        requires
            self.wf(),
        ensures
            r == self.spec_contains_id(id),
    {
        self.find_id(id).is_some()
    }

    pub fn contains_name(&self, name: &str) -> (r: bool)
        requires
            self.wf(),
        ensures
            r == self.spec_contains_name(name@),
    {
        self.find_name(name).is_some()
    }

    pub fn name_to_id(&self, name: &str) -> (r: Option<u64>)
        requires
            self.wf(),
        ensures
            match r {
                Some(id) => self.spec_contains_name(name@)
                    && id == self.entries@[self.idx_of_name(name@)].id,
                None => !self.spec_contains_name(name@),
            },
    {
        match self.find_name(name) {
            Some(i) => Some(self.entries[i].id),
            None => None,
        }
    }

    pub fn id_to_name(&self, id: u64) -> (r: Option<String>)
        requires
            self.wf(),
        ensures
            match r {
                Some(name) => self.spec_contains_id(id)
                    && name@ == self.entries@[self.idx_of_id(id)].name@,
                None => !self.spec_contains_id(id),
            },
    {
        match self.find_id(id) {
            Some(i) => Some(self.entries[i].name.clone()),
            None => None,
        }
    }

    pub fn get_by_id(&self, id: u64) -> (r: Option<&R>)
        requires
            self.wf(),
        ensures
            match r {
                Some(res) => self.spec_contains_id(id)
                    && res == &self.entries@[self.idx_of_id(id)].res,
                None => !self.spec_contains_id(id),
            },
    {
        match self.find_id(id) {
            Some(i) => Some(&self.entries[i].res),
            None => None,
        }
    }

    pub fn get_by_name(&self, name: &str) -> (r: Option<&R>)
        requires
            self.wf(),
        ensures
            match r {
                Some(res) => self.spec_contains_name(name@)
                    && res == &self.entries@[self.idx_of_name(name@)].res,
                None => !self.spec_contains_name(name@),
            },
    {
        match self.find_name(name) {
            Some(i) => Some(&self.entries[i].res),
            None => None,
        }
    }

    /// Adds a new resource under `id` and `name`. Fails with `AlreadyExists`,
    /// changing nothing, when either the id or the name is already taken: the
    /// id/name association could not represent such a state. On success the
    /// entry is appended and the cursor moves past `id` if it had not.
    pub fn insert(&mut self, id: u64, name: String, res: R) -> (r: Result<(), CatalogError>)
        requires
            old(self).wf(),
            id < u64::MAX,
        ensures
            final(self).wf(),
            match r {
                Ok(()) => {
                    &&& !old(self).spec_contains_id(id)
                    &&& !old(self).spec_contains_name(name@)
                    &&& final(self).entries@.len() == old(self).entries@.len() + 1
                    &&& final(self).entries@.last().id == id
                    &&& final(self).entries@.last().name@ == name@
                    &&& final(self).entries@.last().res == res
                    &&& final(self).entries@.drop_last() == old(self).entries@
                    &&& final(self).next_id == if old(self).next_id <= id {
                        id + 1
                    } else {
                        old(self).next_id as int
                    }
                },
                Err(e) => {
                    &&& e is AlreadyExists
                    &&& (old(self).spec_contains_id(id) || old(self).spec_contains_name(name@))
                    &&& *final(self) == *old(self)
                },
            },
    {
        if self.find_id(id).is_some() || self.find_name(&name.as_str()).is_some() {
            return Err(CatalogError::AlreadyExists);
        }
        self.entries.push(RepoEntry { id, name, res });
        if self.next_id <= id {
            self.next_id = id + 1;
        }
        proof {
            assert(final(self).entries@.drop_last() =~= old(self).entries@);
        }
        Ok(())
    }

    /// Replaces the resource stored under `id`, renaming it to `name`. Fails
    /// with `NotFound` when `id` is absent, and with `AlreadyExists` when the
    /// new name belongs to a different entry.
    pub fn update(&mut self, id: u64, name: String, res: R) -> (r: Result<(), CatalogError>)
        requires
            old(self).wf(),
        ensures
            final(self).wf(),
            match r {
                Ok(()) => {
                    &&& old(self).spec_contains_id(id)
                    &&& final(self).entries@.len() == old(self).entries@.len()
                    &&& final(self).next_id == old(self).next_id
                    &&& {
                        let k = old(self).idx_of_id(id);
                        &&& final(self).entries@[k].id == id
                        &&& final(self).entries@[k].name@ == name@
                        &&& final(self).entries@[k].res == res
                        &&& forall|i: int|
                            0 <= i < old(self).entries@.len() && i != k
                                ==> final(self).entries@[i] == old(self).entries@[i]
                    }
                },
                Err(e) => {
                    &&& *final(self) == *old(self)
                    &&& match e {
                        CatalogError::NotFound => !old(self).spec_contains_id(id),
                        CatalogError::AlreadyExists => old(self).spec_contains_id(id)
                            && old(self).spec_contains_name(name@)
                            && old(self).idx_of_name(name@) != old(self).idx_of_id(id),
                        _ => false,
                    }
                },
            },
    {
        let k = match self.find_id(id) {
            Some(k) => k,
            None => {
                return Err(CatalogError::NotFound);
            },
        };
        match self.find_name(&name.as_str()) {
            Some(j) => {
                if j != k {
                    return Err(CatalogError::AlreadyExists);
                }
            },
            None => {},
        }
        let entry = RepoEntry { id, name, res };
        let elem = &mut self.entries[k];
        *elem = entry;
        Ok(())
    }

    /// Removes the entry carrying `id`, keeping the order of the rest; absent
    /// ids are left alone.
    pub fn remove(&mut self, id: u64)
        requires
            old(self).wf(),
        ensures
            final(self).wf(),
            final(self).next_id == old(self).next_id,
            !final(self).spec_contains_id(id),
            if old(self).spec_contains_id(id) {
                final(self).entries@ == old(self).entries@.remove(old(self).idx_of_id(id))
            } else {
                final(self).entries@ == old(self).entries@
            },
    {
        match self.find_id(id) {
            Some(i) => {
                self.entries.remove(i);
                proof {
                    let k = old(self).idx_of_id(id);
                    assert(forall|j: int|
                        0 <= j < final(self).entries@.len() ==> final(self).entries@[j] == if j < k {
                            old(self).entries@[j]
                        } else {
                            old(self).entries@[j + 1]
                        });
                }
            },
            None => {},
        }
    }

    /// Removes and hands out the entry at position `k`, keeping the order of
    /// the rest.
    pub fn take_at(&mut self, k: usize) -> (e: RepoEntry<R>)
        requires
            old(self).wf(),
            k < old(self).entries@.len(),
        ensures
            final(self).wf(),
            final(self).next_id == old(self).next_id,
            final(self).entries@ == old(self).entries@.remove(k as int),
            e == old(self).entries@[k as int],
            !final(self).spec_contains_id(e.id),
            !final(self).spec_contains_name(e.name@),
            e.id < final(self).next_id,
            forall|nm: Seq<char>|
                #[trigger] final(self).spec_contains_name(nm)
                    ==> old(self).spec_contains_name(nm),
    {
        let e = self.entries.remove(k);
        proof {
            assert(forall|j: int|
                0 <= j < final(self).entries@.len() ==> final(self).entries@[j] == if j < k {
                    old(self).entries@[j]
                } else {
                    old(self).entries@[j + 1]
                });
            assert forall|nm: Seq<char>| #[trigger] final(self).spec_contains_name(nm) implies
                old(self).spec_contains_name(nm) by {
                let j = choose|j: int|
                    0 <= j < final(self).entries@.len() && final(self).entries@[j].name@ == nm;
                if j < k {
                    assert(old(self).entries@[j].name@ == nm);
                } else {
                    assert(old(self).entries@[j + 1].name@ == nm);
                }
            }
        }
        e
    }

    /// Puts an entry back at position `k`. The caller owes that its id and
    /// name are absent and that its id lies below the cursor.
    pub fn put_at(&mut self, k: usize, e: RepoEntry<R>)
        requires
            old(self).wf(),
            k <= old(self).entries@.len(),
            !old(self).spec_contains_id(e.id),
            !old(self).spec_contains_name(e.name@),
            e.id < old(self).next_id,
        ensures
            final(self).wf(),
            final(self).next_id == old(self).next_id,
            final(self).entries@ == old(self).entries@.insert(k as int, e),
    {
        self.entries.insert(k, e);
        proof {
            assert(forall|j: int|
                0 <= j < final(self).entries@.len() ==> final(self).entries@[j] == if j < k {
                    old(self).entries@[j]
                } else if j == k {
                    e
                } else {
                    old(self).entries@[j - 1]
                });
        }
    }

    /// Replaces the resource stored at position `k`, keeping its identifier
    /// and name.
    pub fn replace_res_at(&mut self, k: usize, res: R)
        requires
            old(self).wf(),
            k < old(self).entries@.len(),
        ensures
            final(self).wf(),
            final(self).next_id == old(self).next_id,
            final(self).entries@.len() == old(self).entries@.len(),
            forall|i: int|
                0 <= i < old(self).entries@.len() && i != k
                    ==> final(self).entries@[i] == old(self).entries@[i],
            final(self).entries@[k as int].id == old(self).entries@[k as int].id,
            final(self).entries@[k as int].name == old(self).entries@[k as int].name,
            final(self).entries@[k as int].res == res,
    {
        let entry = &mut self.entries[k];
        entry.res = res;
    }

    /// The stored identifiers, in insertion order.
    pub fn id_iter(&self) -> (r: Vec<u64>)
        ensures
            r@.len() == self.entries@.len(),
            forall|i: int| 0 <= i < r@.len() ==> r@[i] == self.entries@[i].id,
    {
        let mut v: Vec<u64> = Vec::new();
        let mut i: usize = 0;
        while i < self.entries.len()
            invariant
                i <= self.entries@.len(),
                v@.len() == i,
                forall|k: int| 0 <= k < i ==> v@[k] == self.entries@[k].id,
            decreases self.entries@.len() - i,
        {
            v.push(self.entries[i].id);
            i += 1;
        }
        v
    }
}

} // verus!
