//! Versioned storage: a live database together with a history of retained
//! versions — read-only snapshots taken at commit time, each held under a
//! monotonically growing number and a caller-supplied id, trimmed to the
//! newest `versions_stored` and restorable by rollback.

use vstd::prelude::*;
use vstd::relations::sorted_by;
use vstd::seq_lib::lemma_sorted_unique;

use itertools::Itertools;

use crate::store::{default_cf, KvStore};
use crate::versions::{
    is_contiguous, is_contiguous_set, lemma_is_contiguous_perm, lemma_sorted_is_sorted,
    lemma_u64_le_total, parse_version_dir_name, spec_parse_version_name, spec_valid_version_id,
    u64_le,
};
use crate::StorageError;

verus! {

/// One entry of the on-disk version directory, as the host found it: the
/// directory's name and the database stored under it.
#[derive(Debug)]
pub struct RawVersionDir {
    /// The directory's name.
    pub name: Vec<u8>,
    /// The database the directory holds.
    pub data: KvStore,
}

/// A retained version: its number, its id, and the database state captured
/// when it was created.
#[derive(Debug)]
struct Version {
    number: u64,
    id: Vec<u8>,
    data: KvStore,
}

/// What one retained version amounts to: its number, its id, and the
/// mapping its snapshot holds.
pub type VersionView = (u64, Seq<u8>, Map<Seq<char>, Map<Seq<u8>, Seq<u8>>>);

/// A versioned storage: the live database and the retained versions in
/// ascending number order.
#[derive(Debug)]
pub struct StorageVersioned {
    db: KvStore,
    versions: Vec<Version>,
    versions_stored: u64,
}

/// Every entry's database is well formed.
pub open spec fn dirs_wf(dirs: Seq<RawVersionDir>) -> bool {
    forall|i: int| 0 <= i < dirs.len() ==> (#[trigger] dirs[i]).data.wf()
}

/// Every directory name parses as `<number>__<id>`.
pub open spec fn all_parse(dirs: Seq<RawVersionDir>) -> bool {
    forall|i: int|
        0 <= i < dirs.len() ==> spec_parse_version_name((#[trigger] dirs[i]).name@) is Some
}

/// The numbers the directory names carry, in directory order.
pub open spec fn parsed_numbers(dirs: Seq<RawVersionDir>) -> Seq<u64> {
    Seq::new(dirs.len(), |i: int| spec_parse_version_name(dirs[i].name@).unwrap().0)
}

/// The ids the directory names carry, in directory order.
pub open spec fn parsed_ids(dirs: Seq<RawVersionDir>) -> Seq<Seq<u8>> {
    Seq::new(dirs.len(), |i: int| spec_parse_version_name(dirs[i].name@).unwrap().1)
}

/// No two directories carry the same id.
pub open spec fn ids_distinct(dirs: Seq<RawVersionDir>) -> bool {
    forall|i: int, j: int|
        0 <= i < j < dirs.len() ==> #[trigger] parsed_ids(dirs)[i] != #[trigger] parsed_ids(dirs)[j]
}

/// The version directory is acceptable: every name parses, the numbers
/// form a contiguous run, and the ids are pairwise distinct.
pub open spec fn versions_ok(dirs: Seq<RawVersionDir>) -> bool {
    all_parse(dirs) && is_contiguous(parsed_numbers(dirs)) && ids_distinct(dirs)
}

/// What open retains: the newest versions among the parsed directory
/// entries, ascending by number, each carrying the number, id and database
/// of the directory it was parsed from.
pub open spec fn open_versions_post(
    dirs: Seq<RawVersionDir>,
    stored: u64,
    out: Seq<VersionView>,
) -> bool {
    &&& out.len() == if dirs.len() <= stored {
        dirs.len()
    } else {
        stored as nat
    }
    &&& forall|i: int|
        0 <= i < out.len() ==> (#[trigger] out[i]).0 == parsed_numbers(dirs).sort_by(u64_le())[
            dirs.len() - out.len() + i
        ]
    &&& forall|i: int| 0 <= i < out.len() ==> version_from_dirs(dirs, #[trigger] out[i])
}

/// Some directory entry parses to exactly this version's number and id and
/// holds this version's database.
pub open spec fn version_from_dirs(dirs: Seq<RawVersionDir>, v: VersionView) -> bool {
    exists|j: int|
        0 <= j < dirs.len() && spec_parse_version_name((#[trigger] dirs[j]).name@) == Some(
            (v.0, v.1),
        ) && v.2 == dirs[j].data.as_map()
}

/// The numbers the versions of `s` carry, in order.
spec fn numbers_of(s: Seq<Version>) -> Seq<u64> {
    Seq::new(s.len(), |i: int| s[i].number)
}

/// Relies on itertools' `sorted_by_key`: the result is a permutation of the
/// input — so it also carries a permutation of the keys — ascending by the
/// chosen key.
#[verifier::external_body]
fn sort_versions_by_number(v: Vec<Version>) -> (r: Vec<Version>)
    ensures
        r@.to_multiset() == v@.to_multiset(),
        r@.len() == v@.len(),
        numbers_of(r@).to_multiset() == numbers_of(v@).to_multiset(),
        forall|i: int, j: int|
            0 <= i < j < r@.len() ==> (#[trigger] r@[i]).number <= (#[trigger] r@[j]).number,
{
    v.into_iter().sorted_by_key(|x: &Version| x.number).collect()
}

impl StorageVersioned {
    /// The live database as a mapping from column-family names to contents.
    pub closed spec fn view_map(self) -> Map<Seq<char>, Map<Seq<u8>, Seq<u8>>> {
        self.db.as_map()
    }

    /// The retained versions in ascending number order.
    pub closed spec fn versions_view(self) -> Seq<VersionView> {
        Seq::new(
            self.versions@.len(),
            |i: int|
                (self.versions@[i].number, self.versions@[i].id@, self.versions@[i].data.as_map()),
        )
    }

    /// The retention bound: how many versions are kept.
    pub closed spec fn retention(self) -> u64 {
        self.versions_stored
    }

    /// Whether a retained version carries this id.
    pub open spec fn has_version(self, id: Seq<u8>) -> bool {
        exists|i: int|
            0 <= i < self.versions_view().len() && (#[trigger] self.versions_view()[i]).1 == id
    }

    /// The live database is well formed; version numbers climb by exactly
    /// one; ids are pairwise distinct; no more than `retention` versions
    /// are held.
    pub open spec fn wf(self) -> bool {
        &&& self.inner_wf()
        &&& forall|i: int|
            0 <= i < self.versions_view().len() - 1 ==> (#[trigger] self.versions_view()[i + 1]).0
                == self.versions_view()[i].0 + 1
        &&& forall|i: int, j: int|
            0 <= i < j < self.versions_view().len() ==> (#[trigger] self.versions_view()[i]).1 != (
            #[trigger] self.versions_view()[j]).1
        &&& self.versions_view().len() <= self.retention()
    }

    /// The held databases are well formed.
    pub closed spec fn inner_wf(self) -> bool {
        &&& self.db.wf()
        &&& forall|i: int| 0 <= i < self.versions@.len() ==> (#[trigger] self.versions@[i]).data.wf()
    }

    /// The numbers of the retained versions, ascending.
    pub open spec fn version_numbers(self) -> Seq<u64> {
        Seq::new(self.versions_view().len(), |i: int| self.versions_view()[i].0)
    }

    /// The version numbers of a well-formed storage always form a
    /// contiguous run.
    pub proof fn lemma_versions_contiguous(self)
        requires
            self.wf(),
        ensures
            is_contiguous(self.version_numbers()),
    {
        let nums = self.version_numbers();
        assert(sorted_by(nums, u64_le())) by {
            assert forall|i: int, j: int| 0 <= i < j < nums.len() implies u64_le()(
                nums[i],
                nums[j],
            ) by {
                lemma_version_run(self.versions_view(), i, j);
            }
        }
        lemma_sorted_is_sorted(nums);
    }

    /// The number of retained versions never exceeds the retention bound:
    /// every operation that returns a well-formed storage keeps it so.
    pub proof fn lemma_retention_bound(self)
        requires
            self.wf(),
        ensures
            self.versions_view().len() <= self.retention(),
    {
    }

    /// Opens a versioned storage over what the host found on disk: the
    /// live database (or nothing), and the entries of the version
    /// directory.  With no live database and `create_if_missing` false the
    /// open is refused with `NotFound`; a version directory with an
    /// unparseable name, a gap or duplicate among the numbers, or a
    /// duplicate id is refused with `Corruption`.  On success the oldest
    /// versions beyond `versions_stored` are dropped.
    pub fn open(
        current: Option<KvStore>,
        version_dirs: &Vec<RawVersionDir>,
        create_if_missing: bool,
        versions_stored: u64,
    ) -> (r: Result<StorageVersioned, StorageError>)
        requires
            current matches Some(db) ==> db.wf(),
            dirs_wf(version_dirs@),
        ensures
            r is Ok <==> (current is Some || create_if_missing) && versions_ok(version_dirs@),
            r is Err && current is None && !create_if_missing ==> r.unwrap_err()
                == StorageError::NotFound,
            r is Err && (current is Some || create_if_missing) ==> r.unwrap_err()
                == StorageError::Corruption,
            r is Ok ==> r.unwrap().wf() && r.unwrap().retention() == versions_stored,
            current matches Some(db) ==> (r is Ok ==> r.unwrap().view_map() == db.as_map()),
            r is Ok && current is None ==> r.unwrap().view_map() == Map::<
                Seq<char>,
                Map<Seq<u8>, Seq<u8>>,
            >::empty().insert(default_cf(), Map::<Seq<u8>, Seq<u8>>::empty()),
            r is Ok ==> open_versions_post(
                version_dirs@,
                versions_stored,
                r.unwrap().versions_view(),
            ),
    {
        let ghost dirs = version_dirs@;
        let db = match current {
            Some(db) => db,
            None => {
                if create_if_missing {
                    KvStore::new()
                } else {
                    return Err(StorageError::NotFound);
                }
            },
        };
        let n = version_dirs.len();
        let mut parsed: Vec<Version> = Vec::new();
        let mut i: usize = 0;
        while i < n
            invariant
                n == dirs.len(),
                dirs == version_dirs@,
                dirs_wf(dirs),
                current is Some || create_if_missing,
                0 <= i <= n,
                parsed@.len() == i,
                forall|j: int|
                    0 <= j < i ==> spec_parse_version_name((#[trigger] dirs[j]).name@) is Some,
                forall|j: int|
                    0 <= j < i ==> (#[trigger] parsed@[j]).number == parsed_numbers(dirs)[j]
                        && parsed@[j].id@ == parsed_ids(dirs)[j] && parsed@[j].data.as_map()
                        == dirs[j].data.as_map() && parsed@[j].data.wf(),
            decreases n - i,
        {
            match parse_version_dir_name(&version_dirs[i].name) {
                None => {
                    proof {
                        assert(spec_parse_version_name(dirs[i as int].name@) is None);
                    }
                    return Err(StorageError::Corruption);
                },
                Some((number, id)) => {
                    let data = version_dirs[i].data.duplicate();
                    proof {
                        assert(id.deep_view() =~= id@);
                        assert(spec_parse_version_name(dirs[i as int].name@) == Some(
                            (number, id@),
                        ));
                    }
                    parsed.push(Version { number, id, data });
                },
            }
            i = i + 1;
        }
        let mut a: usize = 0;
        while a < n
            invariant
                n == parsed@.len(),
                n == dirs.len(),
                dirs == version_dirs@,
                current is Some || create_if_missing,
                0 <= a <= n,
                forall|j: int| 0 <= j < n ==> (#[trigger] parsed@[j]).id@ == parsed_ids(dirs)[j],
                forall|p: int, q: int|
                    0 <= p < q < n && p < a ==> (#[trigger] parsed@[p]).id@ != (
                    #[trigger] parsed@[q]).id@,
            decreases n - a,
        {
            let mut b: usize = a + 1;
            while b < n
                invariant
                    n == parsed@.len(),
                    n == dirs.len(),
                    dirs == version_dirs@,
                    current is Some || create_if_missing,
                    0 <= a < n,
                    a < b <= n,
                    forall|j: int|
                        0 <= j < n ==> (#[trigger] parsed@[j]).id@ == parsed_ids(dirs)[j],
                    forall|q: int|
                        a < q < b ==> (#[trigger] parsed@[q]).id@ != parsed@[a as int].id@,
                decreases n - b,
            {
                if crate::bytes::bytes_eq(&parsed[a].id, &parsed[b].id) {
                    proof {
                        assert(parsed_ids(dirs)[a as int] == parsed_ids(dirs)[b as int]);
                    }
                    return Err(StorageError::Corruption);
                }
                b = b + 1;
            }
            a = a + 1;
        }
        let ghost pre_sort = parsed@;
        let parsed = sort_versions_by_number(parsed);
        proof {
            assert(numbers_of(pre_sort) =~= parsed_numbers(dirs));
        }
        let mut nums: Vec<u64> = Vec::new();
        let mut k: usize = 0;
        while k < parsed.len()
            invariant
                0 <= k <= parsed@.len(),
                nums@.len() == k,
                forall|j: int| 0 <= j < k ==> #[trigger] nums@[j] == parsed@[j].number,
            decreases parsed@.len() - k,
        {
            nums.push(parsed[k].number);
            k = k + 1;
        }
        proof {
            assert(nums@ =~= numbers_of(parsed@));
        }
        let contiguous = is_contiguous_set(&nums);
        proof {
            lemma_is_contiguous_perm(numbers_of(parsed@), parsed_numbers(dirs));
        }
        if !contiguous {
            return Err(StorageError::Corruption);
        }
        let mut versions = parsed;
        let ghost sorted_all = versions@;
        proof {
            assert(versions@ =~= sorted_all.subrange(
                sorted_all.len() - versions@.len(),
                sorted_all.len() as int,
            ));
        }
        while (versions.len() as u64) > versions_stored
            invariant
                versions@.len() <= sorted_all.len(),
                versions@.len() >= versions_stored || versions@.len() == sorted_all.len(),
                versions@ == sorted_all.subrange(
                    sorted_all.len() - versions@.len(),
                    sorted_all.len() as int,
                ),
            decreases versions@.len(),
        {
            versions.remove(0);
            proof {
                assert(versions@ =~= sorted_all.subrange(
                    sorted_all.len() - versions@.len(),
                    sorted_all.len() as int,
                ));
            }
        }
        let s = StorageVersioned { db, versions, versions_stored };
        proof {
            lemma_open_post(dirs, pre_sort, sorted_all, versions_stored, s);
            assert(all_parse(dirs));
            assert forall|p: int, q: int| 0 <= p < q < dirs.len() implies #[trigger] parsed_ids(
                dirs,
            )[p] != #[trigger] parsed_ids(dirs)[q] by {
                assert(pre_sort[p].id@ == parsed_ids(dirs)[p]);
                assert(pre_sort[q].id@ == parsed_ids(dirs)[q]);
            }
            assert(versions_ok(dirs));
        }
        Ok(s)
    }

    /// Whether the directory contents of a well-formed storage open again:
    /// its version numbers form a contiguous run and its ids are distinct,
    /// so a directory listing carrying exactly the names the storage writes
    /// — `<number>__<id>` for each retained version — passes every check
    /// that `open` makes.
    pub proof fn lemma_reopen_accepted(self, dirs: Seq<RawVersionDir>)
        requires
            self.wf(),
            dirs.len() == self.versions_view().len(),
            forall|i: int|
                0 <= i < dirs.len() ==> (#[trigger] dirs[i]).name@
                    == crate::versions::spec_compose_version_name(
                    self.versions_view()[i].0,
                    self.versions_view()[i].1,
                ),
        ensures
            versions_ok(dirs),
    {
        assert forall|i: int| 0 <= i < dirs.len() implies spec_parse_version_name(
            (#[trigger] dirs[i]).name@,
        ) == Some((self.versions_view()[i].0, self.versions_view()[i].1)) by {
            crate::versions::lemma_version_name_round_trip(
                self.versions_view()[i].0,
                self.versions_view()[i].1,
            );
        }
        assert(parsed_numbers(dirs) =~= self.version_numbers());
        self.lemma_versions_contiguous();
        assert forall|i: int, j: int| 0 <= i < j < dirs.len() implies #[trigger] parsed_ids(
            dirs,
        )[i] != #[trigger] parsed_ids(dirs)[j] by {
            assert(parsed_ids(dirs)[i] == self.versions_view()[i].1);
            assert(parsed_ids(dirs)[j] == self.versions_view()[j].1);
        }
    }

    /// Finds the retained version carrying `id`.
    fn find_version(&self, id: &Vec<u8>) -> (r: Option<usize>)
        ensures
            r is Some ==> r.unwrap() < self.versions_view().len()
                && self.versions_view()[r.unwrap() as int].1 == id@,
            r is None ==> !self.has_version(id@),
            r is Some ==> self.has_version(id@),
    {
        let n = self.versions.len();
        let mut i: usize = 0;
        while i < n
            invariant
                n == self.versions@.len(),
                self.versions_view().len() == n,
                0 <= i <= n,
                forall|j: int|
                    0 <= j < n ==> (#[trigger] self.versions_view()[j]).1 == self.versions@[j].id@,
                forall|j: int| 0 <= j < i ==> (#[trigger] self.versions_view()[j]).1 != id@,
            decreases n - i,
        {
            if crate::bytes::bytes_eq(&self.versions[i].id, id) {
                proof {
                    assert(self.versions_view()[i as int].1 == id@);
                }
                return Some(i);
            }
            i = i + 1;
        }
        None
    }

    /// Begins a transaction: with no version id, a committable live
    /// transaction over the current state; with one, a snapshot transaction
    /// over the named version, failing with `NotFound` when no retained
    /// version carries that id.
    pub fn create_transaction(&self, version_id_opt: Option<&Vec<u8>>) -> (r: Result<
        crate::transaction_versioned::TransactionVersioned,
        StorageError,
    >)
        requires
            self.wf(),
        ensures
            version_id_opt is None ==> r is Ok && !r.unwrap().is_snapshot()
                && r.unwrap().view_map() == self.view_map() && r.unwrap().base_map()
                == self.view_map(),
            version_id_opt matches Some(id) ==> ((r is Ok <==> self.has_version(id@)) && (
            r is Err ==> r.unwrap_err() == StorageError::NotFound) && (r is Ok ==> (exists|i: int|
                0 <= i < self.versions_view().len() && (#[trigger] self.versions_view()[i]).1 == id@
                    && r.unwrap().view_map() == self.versions_view()[i].2 && r.unwrap().base_map()
                    == self.versions_view()[i].2) && r.unwrap().is_snapshot())),
            r is Ok ==> r.unwrap().wf() && !r.unwrap().committed() && r.unwrap().saves() == Seq::<
                Map<Seq<char>, Map<Seq<u8>, Seq<u8>>>,
            >::empty(),
    {
        match version_id_opt {
            None => Ok(crate::transaction_versioned::TransactionVersioned::new_live(&self.db)),
            Some(id) => {
                match self.find_version(id) {
                    None => Err(StorageError::NotFound),
                    Some(i) => {
                        proof {
                            assert(self.versions@[i as int].data.wf());
                            assert(self.versions_view()[i as int].2
                                == self.versions@[i as int].data.as_map());
                        }
                        let tx = crate::transaction_versioned::TransactionVersioned::new_snapshot(
                            &self.versions[i].data,
                        );
                        Ok(tx)
                    },
                }
            },
        }
    }

    /// Rolls the live database back to the named version: the current state
    /// becomes that version's snapshot and every version with a greater
    /// number is dropped; lesser versions remain.  An unknown id fails with
    /// `NotFound` and changes nothing.
    pub fn rollback(&mut self, version_id: &Vec<u8>) -> (r: Result<(), StorageError>)
        requires
            old(self).wf(),
        ensures
            final(self).wf(),
            final(self).retention() == old(self).retention(),
            r is Ok <==> old(self).has_version(version_id@),
            r is Err ==> final(self).view_map() == old(self).view_map()
                && final(self).versions_view() == old(self).versions_view() && r.unwrap_err()
                == StorageError::NotFound,
            r is Ok ==> exists|i: int|
                0 <= i < old(self).versions_view().len() && (#[trigger] old(
                    self,
                ).versions_view()[i]).1 == version_id@ && final(self).view_map() == old(
                    self,
                ).versions_view()[i].2 && final(self).versions_view() == old(
                    self,
                ).versions_view().subrange(0, i + 1),
    {
        match self.find_version(version_id) {
            None => Err(StorageError::NotFound),
            Some(i) => {
                proof {
                    assert(self.versions@[i as int].data.wf());
                }
                let n = self.versions.len();
                proof {
                    assert((i as int) < self.versions@.len());
                }
                self.db = self.versions[i].data.duplicate();
                self.versions.truncate(i + 1);
                proof {
                    let pre = old(self).versions_view();
                    assert(self.versions@ == old(self).versions@.subrange(0, i + 1));
                    assert(self.versions_view() =~= pre.subrange(0, i + 1));
                    assert(pre[i as int].1 == version_id@);
                }
                Ok(())
            },
        }
    }

    /// The ids of the retained versions in creation order: ascending by
    /// version number.
    pub fn rollback_versions(&self) -> (r: Result<Vec<Vec<u8>>, StorageError>)
        ensures
            r is Ok,
            r.unwrap()@.len() == self.versions_view().len(),
            forall|i: int|
                0 <= i < self.versions_view().len() ==> #[trigger] r.unwrap()@[i]@ == (
                self.versions_view()[i]).1,
    {
        let n = self.versions.len();
        let mut out: Vec<Vec<u8>> = Vec::new();
        let mut i: usize = 0;
        while i < n
            invariant
                n == self.versions@.len(),
                self.versions_view().len() == n,
                0 <= i <= n,
                out@.len() == i,
                forall|j: int|
                    0 <= j < n ==> (#[trigger] self.versions_view()[j]).1 == self.versions@[j].id@,
                forall|j: int| 0 <= j < i ==> #[trigger] out@[j]@ == self.versions_view()[j].1,
            decreases n - i,
        {
            out.push(crate::bytes::dup_bytes(&self.versions[i].id));
            i = i + 1;
        }
        Ok(out)
    }

    /// The directory names under which the retained versions live on disk,
    /// in ascending number order: `<number>__<id>` for each.  These are the
    /// names the host writes checkpoints under, and the names `open` parses
    /// back.
    pub fn version_dir_names(&self) -> (r: Vec<Vec<u8>>)
        requires
            self.wf(),
        ensures
            r@.len() == self.versions_view().len(),
            forall|i: int|
                0 <= i < self.versions_view().len() ==> #[trigger] r@[i]@
                    == crate::versions::spec_compose_version_name(
                    self.versions_view()[i].0,
                    self.versions_view()[i].1,
                ),
    {
        let n = self.versions.len();
        let mut out: Vec<Vec<u8>> = Vec::new();
        let mut i: usize = 0;
        while i < n
            invariant
                n == self.versions@.len(),
                self.versions_view().len() == n,
                0 <= i <= n,
                out@.len() == i,
                forall|j: int|
                    0 <= j < n ==> (#[trigger] self.versions_view()[j]).0
                        == self.versions@[j].number && self.versions_view()[j].1
                        == self.versions@[j].id@,
                forall|j: int|
                    0 <= j < i ==> #[trigger] out@[j]@
                        == crate::versions::spec_compose_version_name(
                        self.versions_view()[j].0,
                        self.versions_view()[j].1,
                    ),
            decreases n - i,
        {
            out.push(
                crate::versions::compose_version_dir_name(
                    self.versions[i].number,
                    &self.versions[i].id,
                ),
            );
            i = i + 1;
        }
        out
    }

    /// The id of the most recent version — the one with the highest number
    /// — or `None` when no version is retained.
    pub fn last_version(&self) -> (r: Result<Option<Vec<u8>>, StorageError>)
        ensures
            r is Ok,
            r.unwrap() is Some <==> self.versions_view().len() > 0,
            r.unwrap() matches Some(id) ==> id@ == self.versions_view().last().1,
    {
        let n = self.versions.len();
        if n == 0 {
            Ok(None)
        } else {
            proof {
                assert(self.versions_view()[n - 1].1 == self.versions@[n - 1].id@);
            }
            Ok(Some(crate::bytes::dup_bytes(&self.versions[n - 1].id)))
        }
    }

    /// Applies a committed transaction's state to the live database and,
    /// when versions are retained at all, creates a version under
    /// `version_id` — numbered one past the newest — and trims retention.
    /// A failing call changes nothing.
    pub(crate) fn commit_current(&mut self, db_state: &KvStore, version_id: &Vec<u8>) -> (r: Result<
        (),
        StorageError,
    >)
        requires
            old(self).wf(),
            db_state.wf(),
        ensures
            final(self).wf(),
            final(self).retention() == old(self).retention(),
            r is Ok <==> old(self).retention() == 0 || (spec_valid_version_id(version_id@) && !old(
                self,
            ).has_version(version_id@) && spec_next_number(old(self).versions_view()) <= u64::MAX),
            r is Err ==> final(self).view_map() == old(self).view_map()
                && final(self).versions_view() == old(self).versions_view(),
            r is Err ==> r.unwrap_err() == (if !spec_valid_version_id(version_id@) {
                StorageError::InvalidArgument
            } else if old(self).has_version(version_id@) {
                StorageError::AlreadyExists
            } else {
                StorageError::Corruption
            }),
            r is Ok ==> final(self).view_map() == db_state.as_map(),
            r is Ok && old(self).retention() == 0 ==> final(self).versions_view() == old(
                self,
            ).versions_view(),
            r is Ok && old(self).retention() > 0 ==> final(self).versions_view()
                == committed_versions(
                old(self).versions_view(),
                version_id@,
                db_state.as_map(),
                old(self).retention(),
            ),
    {
        if self.versions_stored == 0 {
            self.db = db_state.duplicate();
            return Ok(());
        }
        if !crate::versions::valid_version_id(version_id) {
            return Err(StorageError::InvalidArgument);
        }
        if self.find_version(version_id).is_some() {
            return Err(StorageError::AlreadyExists);
        }
        let n = self.versions.len();
        let mut nums: Vec<u64> = Vec::new();
        let mut w: usize = 0;
        while w < n
            invariant
                n == self.versions@.len(),
                self.versions_view().len() == n,
                0 <= w <= n,
                nums@.len() == w,
                forall|j: int|
                    0 <= j < n ==> (#[trigger] self.versions_view()[j]).0
                        == self.versions@[j].number,
                forall|j: int| 0 <= j < w ==> #[trigger] nums@[j] == self.versions_view()[j].0,
            decreases n - w,
        {
            nums.push(self.versions[w].number);
            w = w + 1;
        }
        let next: u64 = match crate::versions::next_version_number(&nums) {
            Err(_) => {
                proof {
                    let i = choose|i: int| 0 <= i < nums@.len() && #[trigger] nums@[i] == u64::MAX;
                    if i != n - 1 {
                        lemma_version_run(old(self).versions_view(), i, n - 1);
                    }
                    assert(old(self).versions_view().last().0 == u64::MAX);
                }
                return Err(StorageError::Corruption);
            },
            Ok(v) => v,
        };
        proof {
            if n > 0 {
                let i = choose|i: int|
                    0 <= i < nums@.len() && next == #[trigger] nums@[i] + 1 && forall|j: int|
                        0 <= j < nums@.len() ==> #[trigger] nums@[j] <= nums@[i];
                if i != n - 1 {
                    lemma_version_run(old(self).versions_view(), i, n - 1);
                    assert(nums@[n - 1] <= nums@[i]);
                }
            }
            assert(next == spec_next_number(old(self).versions_view()));
        }
        self.db = db_state.duplicate();
        let id = crate::bytes::dup_bytes(version_id);
        let data = db_state.duplicate();
        self.versions.push(Version { number: next, id, data });
        let ghost pushed = old(self).versions_view().push((next, version_id@, db_state.as_map()));
        proof {
            assert(self.versions_view() =~= pushed);
            assert forall|a: int, b: int| 0 <= a < b < pushed.len() implies (
            #[trigger] pushed[a]).1 != (#[trigger] pushed[b]).1 by {
                if b == pushed.len() - 1 {
                    assert(old(self).versions_view()[a].1 != version_id@);
                }
            }
            assert forall|a: int| 0 <= a < pushed.len() - 1 implies (#[trigger] pushed[a + 1]).0
                == pushed[a].0 + 1 by {
                if a < pushed.len() - 2 {
                    assert(old(self).versions_view()[a + 1].0 == old(self).versions_view()[a].0
                        + 1);
                } else {
                    assert(pushed[a].0 == old(self).versions_view().last().0);
                }
            }
        }
        let ghost k = self.versions_stored;
        while (self.versions.len() as u64) > self.versions_stored
            invariant
                k == self.versions_stored,
                k > 0,
                self.db.wf(),
                self.db.as_map() == db_state.as_map(),
                self.versions@.len() <= pushed.len(),
                self.versions@.len() >= k || self.versions@.len() == pushed.len(),
                self.versions_view() == pushed.subrange(
                    pushed.len() - self.versions@.len(),
                    pushed.len() as int,
                ),
                forall|a: int|
                    0 <= a < self.versions@.len() ==> (#[trigger] self.versions@[a]).data.wf(),
            decreases self.versions@.len(),
        {
            let ghost prior = self.versions@;
            let ghost prior_view = self.versions_view();
            self.versions.remove(0);
            proof {
                assert(self.versions@ =~= prior.subrange(1, prior.len() as int));
                assert forall|j: int|
                    0 <= j < self.versions@.len() implies #[trigger] self.versions_view()[j]
                    == prior_view[j + 1] by {
                    assert(self.versions@[j] == prior[j + 1]);
                }
                assert(self.versions_view() =~= pushed.subrange(
                    pushed.len() - self.versions@.len(),
                    pushed.len() as int,
                ));
            }
        }
        proof {
            let vv = self.versions_view();
            let cv = committed_versions(
                old(self).versions_view(),
                version_id@,
                db_state.as_map(),
                k,
            );
            assert(cv =~= pushed.subrange(pushed.len() - vv.len(), pushed.len() as int));
            assert(vv == cv);
            assert forall|a: int| 0 <= a < vv.len() - 1 implies (#[trigger] vv[a + 1]).0 == vv[a].0
                + 1 by {
                let d = pushed.len() - vv.len();
                assert(vv[a + 1] == pushed[d + a + 1]);
                assert(vv[a] == pushed[d + a]);
                assert(pushed[d + a + 1].0 == pushed[d + a].0 + 1);
            }
            assert forall|a: int, b: int| 0 <= a < b < vv.len() implies (#[trigger] vv[a]).1 != (
            #[trigger] vv[b]).1 by {
                let d = pushed.len() - vv.len();
                assert(vv[a] == pushed[d + a]);
                assert(vv[b] == pushed[d + b]);
            }
        }
        Ok(())
    }


    /// A handle for the named column family of the live database, or `None`
    /// when no column family bears that name.
    pub fn get_column_family(&self, cf_name: &str) -> (r: Option<crate::store::ColumnFamily>)
        requires
            self.wf(),
        ensures
            r is Some <==> self.view_map().dom().contains(cf_name@),
            r is Some ==> r.unwrap().name_view() == cf_name@,
    {
        self.db.get_column_family(cf_name)
    }

    /// Creates the named column family on the live database; a name that
    /// already exists is left as it is, and success is reported either way.
    /// The retained versions are untouched.
    pub fn set_column_family(&mut self, cf_name: &str) -> (r: Result<(), StorageError>)
        requires
            old(self).wf(),
        ensures
            r is Ok,
            final(self).wf(),
            final(self).versions_view() == old(self).versions_view(),
            final(self).retention() == old(self).retention(),
            final(self).view_map() == if old(self).view_map().dom().contains(cf_name@) {
                old(self).view_map()
            } else {
                old(self).view_map().insert(cf_name@, Map::<Seq<u8>, Seq<u8>>::empty())
            },
    {
        self.db.set_column_family(cf_name)
    }

    /// The value under `key` in the column family `cf` of the live
    /// database, copied out.
    pub fn get_cf(&self, cf: &crate::store::ColumnFamily, key: &Vec<u8>) -> (r: Option<Vec<u8>>)
        requires
            self.wf(),
        ensures
            r is Some <==> self.view_map().dom().contains(cf.name_view())
                && self.view_map()[cf.name_view()].dom().contains(key@),
            r is Some ==> r.unwrap()@ == self.view_map()[cf.name_view()][key@],
    {
        self.db.get_cf(cf, key)
    }

    /// The value under `key` in the `default` column family of the live
    /// database, copied out.
    pub fn get(&self, key: &Vec<u8>) -> (r: Option<Vec<u8>>)
        requires
            self.wf(),
        ensures
            r is Some <==> self.view_map()[default_cf()].dom().contains(key@),
            r is Some ==> r.unwrap()@ == self.view_map()[default_cf()][key@],
    {
        self.db.get(key)
    }

    /// The value-or-absent for each distinct key of `keys` in the column
    /// family `cf` of the live database.
    pub fn multi_get_cf(&self, cf: &crate::store::ColumnFamily, keys: &Vec<Vec<u8>>) -> (r: Vec<
        (Vec<u8>, Option<Vec<u8>>),
    >)
        requires
            self.wf(),
        ensures
            r.deep_view() == Seq::new(
                crate::store::dedup_first(keys.deep_view()).len(),
                |i: int|
                    (
                        crate::store::dedup_first(keys.deep_view())[i],
                        crate::store::lookup_of(
                            self.view_map(),
                            cf.name_view(),
                            crate::store::dedup_first(keys.deep_view())[i],
                        ),
                    ),
            ),
    {
        self.db.multi_get_cf(cf, keys)
    }

    /// The value-or-absent for each distinct key of `keys` in the `default`
    /// column family of the live database.
    pub fn multi_get(&self, keys: &Vec<Vec<u8>>) -> (r: Vec<(Vec<u8>, Option<Vec<u8>>)>)
        requires
            self.wf(),
        ensures
            r.deep_view() == Seq::new(
                crate::store::dedup_first(keys.deep_view()).len(),
                |i: int|
                    (
                        crate::store::dedup_first(keys.deep_view())[i],
                        crate::store::lookup_of(
                            self.view_map(),
                            default_cf(),
                            crate::store::dedup_first(keys.deep_view())[i],
                        ),
                    ),
            ),
    {
        self.db.multi_get(keys)
    }

    /// Whether the `default` column family of the live database holds no
    /// key.
    pub fn is_empty(&self) -> (r: bool)
        requires
            self.wf(),
        ensures
            r <==> self.view_map()[default_cf()] == Map::<Seq<u8>, Seq<u8>>::empty(),
    {
        self.db.is_empty()
    }

    /// Whether the column family `cf` of the live database holds no key;
    /// fails with `NotFound` when the handle matches no column family.
    pub fn is_empty_cf(&self, cf: &crate::store::ColumnFamily) -> (r: Result<bool, StorageError>)
        requires
            self.wf(),
        ensures
            r is Ok <==> self.view_map().dom().contains(cf.name_view()),
            r is Err ==> r.unwrap_err() == StorageError::NotFound,
            r is Ok ==> (r.unwrap() <==> self.view_map()[cf.name_view()] == Map::<
                Seq<u8>,
                Seq<u8>,
            >::empty()),
    {
        self.db.is_empty_cf(cf)
    }

    /// All entries of the `default` column family of the live database in
    /// ascending key order.
    pub fn get_iter(&self) -> (r: Vec<(Vec<u8>, Vec<u8>)>)
        requires
            self.wf(),
        ensures
            crate::store::cf_iter_post(
                self.view_map()[default_cf()],
                crate::iterator::IterMode::Start,
                r.deep_view(),
            ),
    {
        self.db.iter_all()
    }

    /// All entries of the column family `cf` of the live database in
    /// ascending key order; fails with `NotFound` when the handle matches
    /// no column family.
    pub fn get_iter_cf(&self, cf: &crate::store::ColumnFamily) -> (r: Result<
        Vec<(Vec<u8>, Vec<u8>)>,
        StorageError,
    >)
        requires
            self.wf(),
        ensures
            r is Ok <==> self.view_map().dom().contains(cf.name_view()),
            r is Err ==> r.unwrap_err() == StorageError::NotFound,
            r is Ok ==> crate::store::cf_iter_post(
                self.view_map()[cf.name_view()],
                crate::iterator::IterMode::Start,
                r.unwrap().deep_view(),
            ),
    {
        self.db.iter_cf_mode(cf, &crate::iterator::IterMode::Start)
    }

    /// The entries an iterator over the column family `cf` of the live
    /// database yields in `mode`; fails with `NotFound` when the handle
    /// matches no column family.
    pub fn get_iter_cf_mode(
        &self,
        cf: &crate::store::ColumnFamily,
        mode: &crate::iterator::IterMode,
    ) -> (r: Result<Vec<(Vec<u8>, Vec<u8>)>, StorageError>)
        requires
            self.wf(),
        ensures
            r is Ok <==> self.view_map().dom().contains(cf.name_view()),
            r is Err ==> r.unwrap_err() == StorageError::NotFound,
            r is Ok ==> crate::store::cf_iter_post(
                self.view_map()[cf.name_view()],
                *mode,
                r.unwrap().deep_view(),
            ),
    {
        self.db.iter_cf_mode(cf, mode)
    }

    /// Whether a set of numbers, sorted, forms a contiguous run: the check
    /// the version directory must pass at open.
    pub fn is_contiguous_set(set: &Vec<u64>) -> (r: bool)
        ensures
            r == is_contiguous(set@),
    {
        is_contiguous_set(set)
    }
}

/// One past the newest version number; zero when no version exists.
pub open spec fn spec_next_number(v: Seq<VersionView>) -> int {
    if v.len() == 0 {
        0
    } else {
        v.last().0 + 1
    }
}

/// The versions after a successful commit: the new version appended with
/// the next number, the oldest dropped down to the retention bound.
pub open spec fn committed_versions(
    v: Seq<VersionView>,
    id: Seq<u8>,
    data: Map<Seq<char>, Map<Seq<u8>, Seq<u8>>>,
    k: u64,
) -> Seq<VersionView> {
    let pushed = v.push((spec_next_number(v) as u64, id, data));
    pushed.skip(
        if pushed.len() <= k {
            0
        } else {
            pushed.len() - k
        },
    )
}

/// In a well-formed version run, numbers strictly climb.
proof fn lemma_version_run(v: Seq<VersionView>, i: int, j: int)
    requires
        0 <= i < j < v.len(),
        forall|k: int| 0 <= k < v.len() - 1 ==> (#[trigger] v[k + 1]).0 == v[k].0 + 1,
    ensures
        v[i].0 < v[j].0,
    decreases j - i,
{
    assert(v[i + 1].0 == v[i].0 + 1);
    if i + 1 < j {
        lemma_version_run(v, i + 1, j);
    }
}

/// What the open path has established, assembled into the open contract:
/// the retained versions are the trimmed tail of the sorted parse of the
/// directory, and the result is well formed.
proof fn lemma_open_post(
    dirs: Seq<RawVersionDir>,
    pre_sort: Seq<Version>,
    sorted_all: Seq<Version>,
    stored: u64,
    s: StorageVersioned,
)
    requires
        pre_sort.len() == dirs.len(),
        forall|j: int|
            0 <= j < dirs.len() ==> spec_parse_version_name((#[trigger] dirs[j]).name@) is Some,
        forall|j: int|
            0 <= j < dirs.len() ==> (#[trigger] pre_sort[j]).number == parsed_numbers(dirs)[j]
                && pre_sort[j].id@ == parsed_ids(dirs)[j] && pre_sort[j].data.as_map()
                == dirs[j].data.as_map() && pre_sort[j].data.wf(),
        forall|p: int, q: int|
            0 <= p < q < dirs.len() ==> (#[trigger] pre_sort[p]).id@ != (#[trigger] pre_sort[q]).id@,
        sorted_all.to_multiset() == pre_sort.to_multiset(),
        sorted_all.len() == pre_sort.len(),
        numbers_of(sorted_all).to_multiset() == numbers_of(pre_sort).to_multiset(),
        forall|i: int, j: int|
            0 <= i < j < sorted_all.len() ==> (#[trigger] sorted_all[i]).number <= (
            #[trigger] sorted_all[j]).number,
        is_contiguous(parsed_numbers(dirs)),
        s.versions@ == sorted_all.subrange(
            sorted_all.len() - s.versions@.len(),
            sorted_all.len() as int,
        ),
        s.versions@.len() <= stored,
        s.versions@.len() == if sorted_all.len() <= stored {
            sorted_all.len()
        } else {
            stored as nat
        },
        s.versions_stored == stored,
        s.db.wf(),
    ensures
        s.wf(),
        s.retention() == stored,
        open_versions_post(dirs, stored, s.versions_view()),
{
    broadcast use vstd::seq_lib::group_to_multiset_ensures;

    lemma_u64_le_total();
    let snums = numbers_of(sorted_all);
    let pnums = parsed_numbers(dirs);
    assert(numbers_of(pre_sort) =~= pnums);
    assert(sorted_by(snums, u64_le())) by {
        assert forall|i: int, j: int| 0 <= i < j < snums.len() implies u64_le()(
            snums[i],
            snums[j],
        ) by {
            assert(sorted_all[i].number <= sorted_all[j].number);
        }
    }
    pnums.lemma_sort_by_ensures(u64_le());
    lemma_sorted_unique(snums, pnums.sort_by(u64_le()), u64_le());
    assert(snums == pnums.sort_by(u64_le()));
    // every element of the sorted run comes from the parse of some
    // directory entry
    assert forall|i: int| #![trigger sorted_all[i]] 0 <= i < sorted_all.len() implies exists|j: int|
        0 <= j < dirs.len() && (#[trigger] pre_sort[j]) == sorted_all[i] by {
        assert(sorted_all.to_multiset().contains(sorted_all[i]));
        assert(pre_sort.to_multiset().contains(sorted_all[i]));
        assert(pre_sort.contains(sorted_all[i]));
        let j = choose|j: int| 0 <= j < pre_sort.len() && pre_sort[j] == sorted_all[i];
        assert(pre_sort[j] == sorted_all[i]);
    }
    // the sorted numbers climb by exactly one
    assert(forall|i: int| 0 <= i < snums.len() - 1 ==> #[trigger] snums[i + 1] == snums[i] + 1);
    let drop = sorted_all.len() - s.versions@.len();
    let vv = s.versions_view();
    assert(vv.len() == s.versions@.len());
    assert(forall|i: int|
        0 <= i < vv.len() ==> #[trigger] vv[i] == (
            sorted_all[drop + i].number,
            sorted_all[drop + i].id@,
            sorted_all[drop + i].data.as_map(),
        ));
    // well-formedness of the result
    assert forall|i: int| 0 <= i < s.versions@.len() implies (
    #[trigger] s.versions@[i]).data.wf() by {
        let j = choose|j: int| 0 <= j < dirs.len() && (#[trigger] pre_sort[j]) == sorted_all[drop
            + i];
        assert(pre_sort[j].data.wf());
    }
    assert forall|i: int| 0 <= i < vv.len() - 1 implies (#[trigger] vv[i + 1]).0 == vv[i].0
        + 1 by {
        assert(snums[drop + i + 1] == snums[drop + i] + 1);
    }
    assert forall|i: int, j: int| 0 <= i < j < vv.len() implies (#[trigger] vv[i]).1 != (
    #[trigger] vv[j]).1 by {
        let p = choose|p: int| 0 <= p < dirs.len() && (#[trigger] pre_sort[p]) == sorted_all[drop
            + i];
        let q = choose|q: int| 0 <= q < dirs.len() && (#[trigger] pre_sort[q]) == sorted_all[drop
            + j];
        lemma_version_run_nums(snums, drop + i, drop + j);
        assert(sorted_all[drop + i].number != sorted_all[drop + j].number);
        assert(p != q);
        assert(pre_sort[p].id@ != pre_sort[q].id@);
    }
    // the numbers of the kept tail
    assert(Seq::new(vv.len(), |i: int| vv[i].0) =~= pnums.sort_by(u64_le()).skip(
        dirs.len() - vv.len(),
    ));
    // correspondence of each kept version with a directory entry
    assert forall|i: int| 0 <= i < vv.len() implies version_from_dirs(dirs, #[trigger] vv[i]) by {
        let p = choose|p: int| 0 <= p < dirs.len() && (#[trigger] pre_sort[p]) == sorted_all[drop
            + i];
        assert(spec_parse_version_name(dirs[p].name@) == Some(
            (parsed_numbers(dirs)[p], parsed_ids(dirs)[p]),
        )) by {
            let parsed = spec_parse_version_name(dirs[p].name@);
            assert(parsed is Some);
            assert(parsed_numbers(dirs)[p] == parsed.unwrap().0);
            assert(parsed_ids(dirs)[p] == parsed.unwrap().1);
        }
        assert(spec_parse_version_name(dirs[p].name@) == Some(((vv[i]).0, vv[i].1)));
        assert(vv[i].2 == dirs[p].data.as_map());
        assert(version_from_dirs(dirs, vv[i]));
    }
    assert(vv.len() == if dirs.len() <= stored {
        dirs.len()
    } else {
        stored as nat
    });
    assert forall|i: int| 0 <= i < vv.len() implies (#[trigger] vv[i]).0 == pnums.sort_by(
        u64_le(),
    )[dirs.len() - vv.len() + i] by {
        assert(vv[i].0 == snums[drop + i]);
    }
    assert(open_versions_post(dirs, stored, vv));
}

/// In a run of numbers that climbs by one, later numbers are strictly
/// larger.
proof fn lemma_version_run_nums(t: Seq<u64>, p: int, q: int)
    requires
        0 <= p < q < t.len(),
        forall|i: int| 0 <= i < t.len() - 1 ==> #[trigger] t[i + 1] == t[i] + 1,
    ensures
        t[p] < t[q],
    decreases q - p,
{
    assert(t[p + 1] == t[p] + 1);
    if p + 1 < q {
        lemma_version_run_nums(t, p + 1, q);
    }
}

} // verus!
