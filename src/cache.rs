//! The cache store: records keyed by `(name, version)`, upserted last write
//! wins, and purged when their artifact file has gone missing.
use vstd::prelude::*;
use vstd::string::StringExecFns;
use crate::models::{CachedPackage, CachedPackageView};
use crate::text::{has_suffix, str_eq, str_has_suffix};

verus! {

/// The primary key of a cache record.
pub type CacheKey = (Seq<char>, Seq<char>);

/// The contents of a cache: one record per key.
pub type CacheModel = Map<CacheKey, CachedPackageView>;

pub open spec fn key_of(r: CachedPackageView) -> CacheKey {
    (r.name, r.version)
}

/// The cache after storing `r`: its key now holds `r`, whatever it held.
pub open spec fn stored(m: CacheModel, r: CachedPackageView) -> CacheModel {
    m.insert(key_of(r), r)
}

/// What a lookup of `k` returns, when the artifact of the record found
/// there is (`present`) or is not on disk.
pub open spec fn lookup_result(m: CacheModel, k: CacheKey, present: bool) -> Option<CachedPackageView> {
    if m.contains_key(k) && present {
        Some(m[k])
    } else {
        None
    }
}

/// The cache after that lookup: a record whose artifact is missing is purged.
pub open spec fn after_lookup(m: CacheModel, k: CacheKey, present: bool) -> CacheModel {
    if m.contains_key(k) && present {
        m
    } else {
        m.remove(k)
    }
}

/// The cache built by storing each record of `rows` in turn.
pub open spec fn model_of_rows(rows: Seq<CachedPackageView>) -> CacheModel
    decreases rows.len(),
{
    if rows.len() == 0 {
        Map::empty()
    } else {
        stored(model_of_rows(rows.drop_last()), rows.last())
    }
}

/// The conventional artifact path of `(name, version)` under `dir`.
pub open spec fn artifact_path_of(dir: Seq<char>, name: Seq<char>, version: Seq<char>) -> Seq<char> {
    dir + seq!['/'] + name + seq!['-'] + version + seq!['.', 'w', 'h', 'l']
}

/// A file name that carries the artifact extension.
pub open spec fn is_artifact_file_name(file_name: Seq<char>) -> bool {
    has_suffix(file_name, seq!['.', 'w', 'h', 'l']) && file_name.len() > 4
}

/// The sum of a list of sizes.
pub open spec fn total_size(sizes: Seq<u64>) -> int
    decreases sizes.len(),
{
    if sizes.len() == 0 {
        0
    } else {
        total_size(sizes.drop_last()) + sizes.last()
    }
}

/// A cache of downloaded packages. Its records mirror the rows of the
/// cache database; the artifact files live under `cache_dir`.
pub struct PackageCache {
    pub cache_dir: String,
    rows: Vec<CachedPackage>,
    model: Ghost<CacheModel>,
}

impl View for PackageCache {
    type V = CacheModel;

    closed spec fn view(&self) -> CacheModel {
        self.model@
    }
}

impl PackageCache {
    /// The directory that holds the artifact files.
    pub closed spec fn dir(&self) -> Seq<char> {
        self.cache_dir@
    }

    /// The rows and the model agree, and keys are unique.
    pub closed spec fn wf(&self) -> bool {
        &&& forall|i: int|
            0 <= i < self.rows@.len() ==> #[trigger] self.model@.contains_key(key_of(self.rows@[i]@))
                && self.model@[key_of(self.rows@[i]@)] == self.rows@[i]@
        &&& forall|k: CacheKey| #[trigger]
            self.model@.contains_key(k) ==> exists|i: int|
                0 <= i < self.rows@.len() && key_of(#[trigger] self.rows@[i]@) == k
        &&& forall|i: int, j: int|
            0 <= i < self.rows@.len() && 0 <= j < self.rows@.len() && i != j ==> key_of(
                #[trigger] self.rows@[i]@,
            ) != key_of(#[trigger] self.rows@[j]@)
        &&& self.model@.dom().finite()
        &&& self.model@.dom().len() == self.rows@.len()
    }

    /// An empty cache whose artifacts live under `cache_dir`.
    pub fn new(cache_dir: String) -> (r: Self)
        ensures
            r.wf(),
            r@ == Map::<CacheKey, CachedPackageView>::empty(),
            r.dir() == cache_dir@,
    {
        PackageCache { cache_dir, rows: Vec::new(), model: Ghost(Map::empty()) }
    }

    /// A cache holding `rows`, stored in order (a later row wins over an
    /// earlier one of the same key).
    pub fn with_rows(cache_dir: String, rows: Vec<CachedPackage>) -> (r: Self)
        ensures
            r.wf(),
            r@ == model_of_rows(rows@.map_values(|x: CachedPackage| x@)),
            r.dir() == cache_dir@,
    {
        let mut c = PackageCache::new(cache_dir);
        let ghost views = rows@.map_values(|x: CachedPackage| x@);
        let mut i: usize = 0;
        while i < rows.len()
            invariant
                c.wf(),
                c.dir() == cache_dir@,
                0 <= i <= rows@.len(),
                views == rows@.map_values(|x: CachedPackage| x@),
                c@ == model_of_rows(views.subrange(0, i as int)),
            decreases rows@.len() - i,
        {
            c.store_package(rows[i].copy());
            proof {
                assert(views.subrange(0, i + 1).drop_last() =~= views.subrange(0, i as int));
            }
            i = i + 1;
        }
        assert(views.subrange(0, rows@.len() as int) =~= views);
        c
    }

    /// The index of the row stored under `(name, version)`.
    fn position(&self, name: &str, version: &str) -> (r: Option<usize>)
        requires
            self.wf(),
        ensures
            match r {
                Some(i) => i < self.rows@.len() && key_of(self.rows@[i as int]@) == (name@, version@),
                None => !self@.contains_key((name@, version@)),
            },
    {
        let mut i: usize = 0;
        while i < self.rows.len()
            invariant
                self.wf(),
                0 <= i <= self.rows@.len(),
                forall|j: int| 0 <= j < i ==> key_of(#[trigger] self.rows@[j]@) != (name@, version@),
            decreases self.rows@.len() - i,
        {
            let row = &self.rows[i];
            if str_eq(row.name.as_str(), name) && str_eq(row.version.as_str(), version) {
                return Some(i);
            }
            i = i + 1;
        }
        None
    }

    /// The record stored under `(name, version)`, without looking at its
    /// artifact file.
    pub fn find_package(&self, name: &str, version: &str) -> (r: Option<CachedPackage>)
        requires
            self.wf(),
        ensures
            match r {
                Some(p) => self@.contains_key((name@, version@)) && p@ == self@[(name@, version@)],
                None => !self@.contains_key((name@, version@)),
            },
    {
        match self.position(name, version) {
            Some(i) => {
                assert(self.model@.contains_key(key_of(self.rows@[i as int]@)));
                Some(self.rows[i].copy())
            },
            None => None,
        }
    }

    /// Looks `(name, version)` up, given whether the artifact file of the
    /// record stored there is on disk. A record whose artifact is missing is
    /// stale: it is purged and not served.
    pub fn get_package(&mut self, name: &str, version: &str, artifact_present: bool) -> (r: Option<CachedPackage>)
        requires
            old(self).wf(),
        ensures
            final(self).wf(),
            final(self).dir() == old(self).dir(),
            match r {
                Some(p) => lookup_result(old(self)@, (name@, version@), artifact_present) == Some(p@),
                None => lookup_result(old(self)@, (name@, version@), artifact_present) is None,
            },
            final(self)@ == after_lookup(old(self)@, (name@, version@), artifact_present),
    {
        match self.position(name, version) {
            Some(i) => {
                if artifact_present {
                    Some(self.rows[i].copy())
                } else {
                    self.remove_package(name, version);
                    None
                }
            },
            None => {
                proof {
                    assert(self@.remove((name@, version@)) =~= self@);
                }
                None
            },
        }
    }

    /// Stores `package` under its `(name, version)`, replacing any record
    /// stored there before.
    pub fn store_package(&mut self, package: CachedPackage)
        requires
            old(self).wf(),
        ensures
            final(self).wf(),
            final(self).dir() == old(self).dir(),
            final(self)@ == stored(old(self)@, package@),
    {
        let ghost k = key_of(package@);
        match self.position(package.name.as_str(), package.version.as_str()) {
            Some(i) => {
                self.rows.set(i, package);
                self.model = Ghost(self.model@.insert(k, package@));
                assert(self.model@.dom() =~= old(self).model@.dom());
                assert forall|k2: CacheKey| #[trigger] self.model@.contains_key(k2) implies exists|j: int|
                    0 <= j < self.rows@.len() && key_of(#[trigger] self.rows@[j]@) == k2 by {
                    if k2 == k {
                        assert(key_of(self.rows@[i as int]@) == k2);
                    } else {
                        assert(old(self).model@.contains_key(k2));
                        let j = choose|j: int|
                            0 <= j < old(self).rows@.len() && key_of(#[trigger] old(self).rows@[j]@) == k2;
                        assert(key_of(self.rows@[j]@) == k2);
                    }
                }
            },
            None => {
                self.rows.push(package);
                self.model = Ghost(self.model@.insert(k, package@));
                assert forall|k2: CacheKey| #[trigger] self.model@.contains_key(k2) implies exists|j: int|
                    0 <= j < self.rows@.len() && key_of(#[trigger] self.rows@[j]@) == k2 by {
                    if k2 == k {
                        assert(key_of(self.rows@[self.rows@.len() - 1]@) == k2);
                    } else {
                        assert(old(self).model@.contains_key(k2));
                        let j = choose|j: int|
                            0 <= j < old(self).rows@.len() && key_of(#[trigger] old(self).rows@[j]@) == k2;
                        assert(key_of(self.rows@[j]@) == k2);
                    }
                }
                assert forall|j: int| 0 <= j < old(self).rows@.len() implies key_of(
                    #[trigger] self.rows@[j]@,
                ) != k by {
                    assert(old(self).model@.contains_key(key_of(old(self).rows@[j]@)));
                }
            },
        }
    }

    /// Deletes the record stored under `(name, version)`, if there is one.
    pub fn remove_package(&mut self, name: &str, version: &str)
        requires
            old(self).wf(),
        ensures
            final(self).wf(),
            final(self).dir() == old(self).dir(),
            final(self)@ == old(self)@.remove((name@, version@)),
    {
        let ghost k = (name@, version@);
        match self.position(name, version) {
            Some(i) => {
                let ghost old_rows = self.rows@;
                self.rows.remove(i);
                self.model = Ghost(self.model@.remove(k));
                assert forall|j: int| 0 <= j < self.rows@.len() implies #[trigger] self.model@.contains_key(
                    key_of(self.rows@[j]@),
                ) && self.model@[key_of(self.rows@[j]@)] == self.rows@[j]@ by {
                    if j < i {
                        assert(self.rows@[j] == old_rows[j]);
                        assert(key_of(old_rows[j]@) != key_of(old_rows[i as int]@));
                    } else {
                        assert(self.rows@[j] == old_rows[j + 1]);
                        assert(key_of(old_rows[j + 1]@) != key_of(old_rows[i as int]@));
                    }
                }
                assert forall|k2: CacheKey| #[trigger] self.model@.contains_key(k2) implies exists|j: int|
                    0 <= j < self.rows@.len() && key_of(#[trigger] self.rows@[j]@) == k2 by {
                    let j = choose|j: int|
                        0 <= j < old_rows.len() && key_of(#[trigger] old_rows[j]@) == k2;
                    if j < i {
                        assert(key_of(self.rows@[j]@) == k2);
                    } else {
                        assert(j != i);
                        assert(key_of(self.rows@[j - 1]@) == k2);
                    }
                }
                assert forall|a: int, b: int|
                    0 <= a < self.rows@.len() && 0 <= b < self.rows@.len() && a != b implies key_of(
                    #[trigger] self.rows@[a]@,
                ) != key_of(#[trigger] self.rows@[b]@) by {
                    let a2 = if a < i { a } else { a + 1 };
                    let b2 = if b < i { b } else { b + 1 };
                    assert(self.rows@[a] == old_rows[a2]);
                    assert(self.rows@[b] == old_rows[b2]);
                }
            },
            None => {
                assert(self.model@.remove(k) =~= self.model@);
            },
        }
    }

    /// Deletes every record.
    pub fn clear_all(&mut self)
        requires
            old(self).wf(),
        ensures
            final(self).wf(),
            final(self).dir() == old(self).dir(),
            final(self)@ == Map::<CacheKey, CachedPackageView>::empty(),
    {
        self.rows = Vec::new();
        self.model = Ghost(Map::empty());
    }

    /// The number of records.
    pub fn package_count(&self) -> (r: usize)
        requires
            self.wf(),
        ensures
            r == self@.dom().len(),
    {
        self.rows.len()
    }

    /// The record count, and the sum of `file_sizes`: the sizes of every
    /// file found in the cache directory (capped at `u64::MAX`).
    pub fn get_stats(&self, file_sizes: &Vec<u64>) -> (r: (usize, u64))
        requires
            self.wf(),
        ensures
            r.0 == self@.dom().len(),
            r.1 == if total_size(file_sizes@) <= u64::MAX { total_size(file_sizes@) } else { u64::MAX as int },
    {
        let mut total: u64 = 0;
        let mut i: usize = 0;
        while i < file_sizes.len()
            invariant
                0 <= i <= file_sizes@.len(),
                total == if total_size(file_sizes@.subrange(0, i as int)) <= u64::MAX {
                    total_size(file_sizes@.subrange(0, i as int))
                } else {
                    u64::MAX as int
                },
            decreases file_sizes@.len() - i,
        {
            proof {
                assert(file_sizes@.subrange(0, i + 1).drop_last() =~= file_sizes@.subrange(0, i as int));
            }
            total = total.saturating_add(file_sizes[i]);
            i = i + 1;
        }
        assert(file_sizes@.subrange(0, file_sizes@.len() as int) =~= file_sizes@);
        (self.rows.len(), total)
    }

    /// Where the artifact of `(name, version)` is kept.
    pub fn artifact_path(&self, name: &str, version: &str) -> (r: String)
        ensures
            r@ == artifact_path_of(self.dir(), name@, version@),
    {
        let mut p = self.cache_dir.clone();
        p.append("/");
        p.append(name);
        p.append("-");
        p.append(version);
        p.append(".whl");
        proof {
            reveal_strlit("/");
            reveal_strlit("-");
            reveal_strlit(".whl");
        }
        p
    }
}

/// Storing a record and then looking its key up, while its artifact file
/// exists, returns a record field-equal to the stored one and leaves the
/// cache as the store left it.
pub proof fn lemma_store_then_lookup(m: CacheModel, r: CachedPackageView)
    ensures
        lookup_result(stored(m, r), key_of(r), true) == Some(r),
        after_lookup(stored(m, r), key_of(r), true) == stored(m, r),
{
}

/// A lookup of a key whose artifact file has gone missing returns nothing,
/// the record is gone afterwards, and later lookups of that key find nothing.
pub proof fn lemma_stale_lookup_purges(m: CacheModel, k: CacheKey)
    ensures
        lookup_result(m, k, false) is None,
        !after_lookup(m, k, false).contains_key(k),
        forall|present: bool| #[trigger] lookup_result(after_lookup(m, k, false), k, present) is None,
{
}

/// Whether a file of the cache directory is an artifact (and is removed
/// when the cache is cleared), by its extension.
pub fn is_artifact_file(file_name: &str) -> (r: bool)
    ensures
        r == is_artifact_file_name(file_name@),
{
    proof {
        reveal_strlit(".whl");
        assert(".whl"@ =~= seq!['.', 'w', 'h', 'l']);
    }
    str_has_suffix(file_name, ".whl") && file_name.unicode_len() > 4
}

} // verus!
