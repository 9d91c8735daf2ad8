//! The database state: named column families, each holding a key-value map.
//! A column family called `default` always exists; column families can be
//! created but never deleted.

use vstd::prelude::*;

use itertools::Itertools;

use crate::assoc::{
    lemma_map_of_contains, lemma_map_of_index, lemma_map_of_insert_at, lemma_map_of_update_at,
    map_of,
};
use crate::kvmap::KvMap;
use crate::iterator::IterMode;
use crate::StorageError;

verus! {

/// The name of the column family that always exists.
pub open spec fn default_cf() -> Seq<char> {
    "default"@
}

/// A handle to a named column family, as returned by a lookup.
#[derive(Debug)]
pub struct ColumnFamily {
    name: String,
}

impl ColumnFamily {
    /// The column family's name.
    pub closed spec fn name_view(self) -> Seq<char> {
        self.name@
    }
}

/// The whole database: a list of named column families with pairwise
/// distinct names, `default` among them.
#[derive(Debug)]
pub struct KvStore {
    cfs: Vec<(String, KvMap)>,
}

impl KvStore {
    /// The column families in storage order: each name with the mapping its
    /// store holds.
    pub closed spec fn cf_seq(self) -> Seq<(Seq<char>, Map<Seq<u8>, Seq<u8>>)> {
        Seq::new(self.cfs@.len(), |i: int| (self.cfs@[i].0@, self.cfs@[i].1.as_map()))
    }

    /// Names are pairwise distinct, every column family's store is well
    /// formed, and `default` exists.
    pub open spec fn wf(self) -> bool {
        &&& forall|p: int, q: int|
            0 <= p < q < self.cf_seq().len() ==> (#[trigger] self.cf_seq()[p]).0 != (
            #[trigger] self.cf_seq()[q]).0
        &&& self.inner_wf()
        &&& exists|i: int|
            0 <= i < self.cf_seq().len() && (#[trigger] self.cf_seq()[i]).0 == default_cf()
    }

    /// Every column family's store keeps its entries sorted.
    pub closed spec fn inner_wf(self) -> bool {
        forall|i: int| 0 <= i < self.cfs@.len() ==> (#[trigger] self.cfs@[i]).1.wf()
    }

    /// The database as a mapping from column-family names to their contents.
    pub open spec fn as_map(self) -> Map<Seq<char>, Map<Seq<u8>, Seq<u8>>> {
        map_of(self.cf_seq())
    }

    /// The contents of the `default` column family.
    pub open spec fn default_map(self) -> Map<Seq<u8>, Seq<u8>> {
        self.as_map()[default_cf()]
    }

    /// The mapping holds a name exactly when some column family bears it,
    /// and sends each name to that column family's contents.
    pub proof fn lemma_view_facts(self)
        requires
            self.wf(),
        ensures
            forall|n: Seq<char>|
                self.as_map().dom().contains(n) <==> exists|i: int|
                    0 <= i < self.cf_seq().len() && (#[trigger] self.cf_seq()[i]).0 == n,
            forall|i: int|
                0 <= i < self.cf_seq().len() ==> self.as_map().dom().contains(
                    (#[trigger] self.cf_seq()[i]).0,
                ) && self.as_map()[self.cf_seq()[i].0] == self.cf_seq()[i].1,
            self.as_map().dom().contains(default_cf()),
    {
        lemma_map_of_contains(self.cf_seq());
        assert forall|i: int| 0 <= i < self.cf_seq().len() implies self.as_map().dom().contains(
            (#[trigger] self.cf_seq()[i]).0,
        ) && self.as_map()[self.cf_seq()[i].0] == self.cf_seq()[i].1 by {
            lemma_map_of_index(self.cf_seq(), i);
        }
        let i = choose|i: int|
            0 <= i < self.cf_seq().len() && (#[trigger] self.cf_seq()[i]).0 == default_cf();
        assert(self.as_map().dom().contains(self.cf_seq()[i].0));
    }

    /// A fresh database: only the `default` column family, empty.
    pub fn new() -> (r: KvStore)
        ensures
            r.wf(),
            r.as_map() == Map::<Seq<char>, Map<Seq<u8>, Seq<u8>>>::empty().insert(
                default_cf(),
                Map::<Seq<u8>, Seq<u8>>::empty(),
            ),
    {
        let mut cfs: Vec<(String, KvMap)> = Vec::new();
        cfs.push(("default".to_owned(), KvMap::new()));
        let r = KvStore { cfs };
        proof {
            assert(r.cf_seq() =~= seq![(default_cf(), Map::<Seq<u8>, Seq<u8>>::empty())]);
            assert(r.cf_seq()[0].0 == default_cf());
            assert(r.cf_seq().drop_last() =~= Seq::<(Seq<char>, Map<Seq<u8>, Seq<u8>>)>::empty());
            reveal_with_fuel(crate::assoc::map_of, 2);
            assert(r.as_map() =~= Map::<Seq<char>, Map<Seq<u8>, Seq<u8>>>::empty().insert(
                default_cf(),
                Map::<Seq<u8>, Seq<u8>>::empty(),
            ));
        }
        r
    }

    /// Finds the position of the column family bearing `name`.
    fn find_cf(&self, name: &String) -> (r: Option<usize>)
        requires
            self.wf(),
        ensures
            r is Some ==> r.unwrap() < self.cf_seq().len() && self.cf_seq()[r.unwrap() as int].0
                == name@,
            r is None ==> forall|i: int|
                0 <= i < self.cf_seq().len() ==> (#[trigger] self.cf_seq()[i]).0 != name@,
    {
        let n = self.cfs.len();
        let mut i: usize = 0;
        while i < n
            invariant
                n == self.cfs@.len(),
                self.cf_seq().len() == self.cfs@.len(),
                0 <= i <= n,
                forall|j: int| 0 <= j < self.cfs@.len() ==> (#[trigger] self.cf_seq()[j]).0
                    == self.cfs@[j].0@,
                forall|j: int| 0 <= j < i ==> (#[trigger] self.cf_seq()[j]).0 != name@,
            decreases n - i,
        {
            if self.cfs[i].0.eq(name) {
                return Some(i);
            }
            i = i + 1;
        }
        None
    }

    /// A handle for the named column family, or `None` when no column family
    /// bears that name.
    pub fn get_column_family(&self, cf_name: &str) -> (r: Option<ColumnFamily>)
        requires
            self.wf(),
        ensures
            r is Some <==> self.as_map().dom().contains(cf_name@),
            r is Some ==> r.unwrap().name_view() == cf_name@,
    {
        proof {
            self.lemma_view_facts();
        }
        let owned = cf_name.to_owned();
        match self.find_cf(&owned) {
            Some(_) => Some(ColumnFamily { name: owned }),
            None => None,
        }
    }

    /// Creates the named column family; a name that already exists is left
    /// as it is, and success is reported either way.
    pub fn set_column_family(&mut self, cf_name: &str) -> (r: Result<(), StorageError>)
        requires
            old(self).wf(),
        ensures
            r is Ok,
            final(self).wf(),
            final(self).as_map() == if old(self).as_map().dom().contains(cf_name@) {
                old(self).as_map()
            } else {
                old(self).as_map().insert(cf_name@, Map::<Seq<u8>, Seq<u8>>::empty())
            },
    {
        proof {
            old(self).lemma_view_facts();
        }
        let owned = cf_name.to_owned();
        match self.find_cf(&owned) {
            Some(_) => Ok(()),
            None => {
                let ghost pre = self.cf_seq();
                self.cfs.push((owned, KvMap::new()));
                proof {
                    assert(self.cf_seq() =~= pre.insert(
                        pre.len() as int,
                        (cf_name@, Map::<Seq<u8>, Seq<u8>>::empty()),
                    ));
                    lemma_map_of_insert_at(
                        pre,
                        pre.len() as int,
                        cf_name@,
                        Map::<Seq<u8>, Seq<u8>>::empty(),
                    );
                    assert(forall|j: int|
                        0 <= j < pre.len() ==> (#[trigger] self.cfs@[j]) == old(self).cfs@[j]);
                    let w = choose|i: int|
                        0 <= i < pre.len() && (#[trigger] pre[i]).0 == default_cf();
                    assert(self.cf_seq()[w].0 == default_cf());
                }
                Ok(())
            },
        }
    }

    /// Whether a column family bearing the handle's name exists.
    pub fn has_column_family(&self, cf: &ColumnFamily) -> (r: bool)
        requires
            self.wf(),
        ensures
            r <==> self.as_map().dom().contains(cf.name_view()),
    {
        self.cf_index(cf).is_some()
    }

    /// The contents of the column family that `cf` points at, or `None` when
    /// the handle matches no column family.
    fn cf_index(&self, cf: &ColumnFamily) -> (r: Option<usize>)
        requires
            self.wf(),
        ensures
            r is Some <==> self.as_map().dom().contains(cf.name_view()),
            r is Some ==> r.unwrap() < self.cf_seq().len() && self.cf_seq()[r.unwrap() as int].0
                == cf.name_view() && self.cf_seq()[r.unwrap() as int].1
                == self.as_map()[cf.name_view()],
    {
        proof {
            self.lemma_view_facts();
        }
        self.find_cf(&cf.name)
    }

    /// The value under `key` in the column family `cf`, copied out.  An
    /// absent key — or a handle matching no column family — is `None`, not
    /// an error.
    pub fn get_cf(&self, cf: &ColumnFamily, key: &Vec<u8>) -> (r: Option<Vec<u8>>)
        requires
            self.wf(),
        ensures
            r is Some <==> self.as_map().dom().contains(cf.name_view())
                && self.as_map()[cf.name_view()].dom().contains(key@),
            r is Some ==> r.unwrap()@ == self.as_map()[cf.name_view()][key@],
    {
        match self.cf_index(cf) {
            Some(i) => self.cfs[i].1.get(key),
            None => None,
        }
    }

    /// The value under `key` in the `default` column family, copied out.
    pub fn get(&self, key: &Vec<u8>) -> (r: Option<Vec<u8>>)
        requires
            self.wf(),
        ensures
            r is Some <==> self.default_map().dom().contains(key@),
            r is Some ==> r.unwrap()@ == self.default_map()[key@],
    {
        proof {
            self.lemma_view_facts();
        }
        let cf = ColumnFamily { name: "default".to_owned() };
        self.get_cf(&cf, key)
    }

    /// Inserts `value` under `key` in the column family `cf`; fails with
    /// `NotFound` when the handle matches no column family.
    pub fn put_cf(&mut self, cf: &ColumnFamily, key: Vec<u8>, value: Vec<u8>) -> (r: Result<
        (),
        StorageError,
    >)
        requires
            old(self).wf(),
        ensures
            final(self).wf(),
            r is Ok <==> old(self).as_map().dom().contains(cf.name_view()),
            r is Err ==> r.unwrap_err() == StorageError::NotFound && final(self).as_map() == old(
                self,
            ).as_map(),
            r is Ok ==> final(self).as_map() == old(self).as_map().insert(
                cf.name_view(),
                old(self).as_map()[cf.name_view()].insert(key@, value@),
            ),
    {
        match self.cf_index(cf) {
            Some(i) => {
                let ghost pre = self.cf_seq();
                let mut entry = self.cfs.remove(i);
                entry.1.put(key, value);
                self.cfs.insert(i, entry);
                proof {
                    assert(self.cf_seq() =~= pre.update(
                        i as int,
                        (cf.name_view(), pre[i as int].1.insert(key@, value@)),
                    ));
                    lemma_map_of_update_at(pre, i as int, pre[i as int].1.insert(key@, value@));
                    assert(forall|j: int|
                        0 <= j < pre.len() && j != i ==> (#[trigger] self.cfs@[j]) == old(
                            self,
                        ).cfs@[j]);
                    let w = choose|l: int|
                        0 <= l < pre.len() && (#[trigger] pre[l]).0 == default_cf();
                    assert(self.cf_seq()[w].0 == default_cf());
                }
                Ok(())
            },
            None => Err(StorageError::NotFound),
        }
    }

    /// Removes `key` from the column family `cf`; fails with `NotFound` when
    /// the handle matches no column family.
    pub fn delete_cf(&mut self, cf: &ColumnFamily, key: &Vec<u8>) -> (r: Result<(), StorageError>)
        requires
            old(self).wf(),
        ensures
            final(self).wf(),
            r is Ok <==> old(self).as_map().dom().contains(cf.name_view()),
            r is Err ==> r.unwrap_err() == StorageError::NotFound && final(self).as_map() == old(
                self,
            ).as_map(),
            r is Ok ==> final(self).as_map() == old(self).as_map().insert(
                cf.name_view(),
                old(self).as_map()[cf.name_view()].remove(key@),
            ),
    {
        match self.cf_index(cf) {
            Some(i) => {
                let ghost pre = self.cf_seq();
                let mut entry = self.cfs.remove(i);
                entry.1.delete(key);
                self.cfs.insert(i, entry);
                proof {
                    assert(self.cf_seq() =~= pre.update(
                        i as int,
                        (cf.name_view(), pre[i as int].1.remove(key@)),
                    ));
                    lemma_map_of_update_at(pre, i as int, pre[i as int].1.remove(key@));
                    assert(forall|j: int|
                        0 <= j < pre.len() && j != i ==> (#[trigger] self.cfs@[j]) == old(
                            self,
                        ).cfs@[j]);
                    let w = choose|l: int|
                        0 <= l < pre.len() && (#[trigger] pre[l]).0 == default_cf();
                    assert(self.cf_seq()[w].0 == default_cf());
                }
                Ok(())
            },
            None => Err(StorageError::NotFound),
        }
    }

    /// Whether the column family `cf` holds no key; fails with `NotFound`
    /// when the handle matches no column family.
    pub fn is_empty_cf(&self, cf: &ColumnFamily) -> (r: Result<bool, StorageError>)
        requires
            self.wf(),
        ensures
            r is Ok <==> self.as_map().dom().contains(cf.name_view()),
            r is Err ==> r.unwrap_err() == StorageError::NotFound,
            r is Ok ==> (r.unwrap() <==> self.as_map()[cf.name_view()] == Map::<
                Seq<u8>,
                Seq<u8>,
            >::empty()),
    {
        match self.cf_index(cf) {
            Some(i) => Ok(self.cfs[i].1.is_empty()),
            None => Err(StorageError::NotFound),
        }
    }

    /// Whether the `default` column family holds no key.
    pub fn is_empty(&self) -> (r: bool)
        requires
            self.wf(),
        ensures
            r <==> self.default_map() == Map::<Seq<u8>, Seq<u8>>::empty(),
    {
        proof {
            self.lemma_view_facts();
        }
        let cf = ColumnFamily { name: "default".to_owned() };
        match self.is_empty_cf(&cf) {
            Ok(b) => b,
            Err(_) => true,
        }
    }

    /// The entries an iterator over the column family `cf` yields in `mode`;
    /// fails with `NotFound` when the handle matches no column family.
    pub fn iter_cf_mode(&self, cf: &ColumnFamily, mode: &IterMode) -> (r: Result<
        Vec<(Vec<u8>, Vec<u8>)>,
        StorageError,
    >)
        requires
            self.wf(),
        ensures
            r is Ok <==> self.as_map().dom().contains(cf.name_view()),
            r is Err ==> r.unwrap_err() == StorageError::NotFound,
            r is Ok ==> cf_iter_post(
                self.as_map()[cf.name_view()],
                *mode,
                r.unwrap().deep_view(),
            ),
    {
        match self.cf_index(cf) {
            Some(i) => {
                proof {
                    self.cfs@[i as int].1.lemma_view_facts();
                }
                let out = self.cfs[i].1.iter_mode(mode);
                proof {
                    lemma_cf_iter_post(self.cfs@[i as int].1, *mode, out.deep_view());
                }
                Ok(out)
            },
            None => Err(StorageError::NotFound),
        }
    }

    /// All entries of the `default` column family in ascending key order.
    pub fn iter_all(&self) -> (r: Vec<(Vec<u8>, Vec<u8>)>)
        requires
            self.wf(),
        ensures
            cf_iter_post(self.default_map(), IterMode::Start, r.deep_view()),
    {
        proof {
            self.lemma_view_facts();
        }
        let cf = ColumnFamily { name: "default".to_owned() };
        match self.iter_cf_mode(&cf, &IterMode::Start) {
            Ok(v) => v,
            Err(_) => Vec::new(),
        }
    }

    /// A deep copy of the database.
    pub fn duplicate(&self) -> (r: KvStore)
        requires
            self.wf(),
        ensures
            r.wf(),
            r.cf_seq() == self.cf_seq(),
            r.as_map() == self.as_map(),
    {
        let mut cfs: Vec<(String, KvMap)> = Vec::new();
        let n = self.cfs.len();
        let mut i: usize = 0;
        while i < n
            invariant
                self.wf(),
                n == self.cfs@.len(),
                0 <= i <= n,
                cfs@.len() == i,
                forall|j: int|
                    0 <= j < i ==> (#[trigger] cfs@[j]).0@ == self.cfs@[j].0@ && cfs@[j].1.as_map()
                        == self.cfs@[j].1.as_map() && cfs@[j].1.wf(),
            decreases n - i,
        {
            let name = self.cfs[i].0.clone();
            let m = self.cfs[i].1.duplicate();
            proof {
                assert(self.cfs@[i as int].1.wf());
            }
            cfs.push((name, m));
            i = i + 1;
        }
        let r = KvStore { cfs };
        proof {
            assert(r.cf_seq() =~= self.cf_seq());
        }
        r
    }
}

/// The keys of `s` with duplicates dropped: the first occurrence of each
/// distinct key, in input order.
pub open spec fn dedup_first(s: Seq<Seq<u8>>) -> Seq<Seq<u8>>
    decreases s.len(),
{
    if s.len() == 0 {
        Seq::empty()
    } else if s.drop_last().contains(s.last()) {
        dedup_first(s.drop_last())
    } else {
        dedup_first(s.drop_last()).push(s.last())
    }
}

/// Relies on itertools' `unique`: yields each distinct element once, at its
/// first occurrence, in input order.
#[verifier::external_body]
fn unique_keys(keys: &Vec<Vec<u8>>) -> (r: Vec<Vec<u8>>)
    ensures
        r.deep_view() == dedup_first(keys.deep_view()),
{
    keys.iter().cloned().unique().collect()
}

/// The value a reader returns for `key` in the column family named `cf`:
/// the stored value, or `None` when the column family or the key is absent.
pub open spec fn lookup_of(
    m: Map<Seq<char>, Map<Seq<u8>, Seq<u8>>>,
    cf: Seq<char>,
    key: Seq<u8>,
) -> Option<Seq<u8>> {
    if m.dom().contains(cf) && m[cf].dom().contains(key) {
        Some(m[cf][key])
    } else {
        None
    }
}

impl KvStore {
    /// The value-or-absent for each distinct key of `keys` in the column
    /// family `cf`, keyed by first occurrence in input order.  Duplicate
    /// keys collapse; an absent key — or a handle matching no column family
    /// — pairs with `None`.
    pub fn multi_get_cf(&self, cf: &ColumnFamily, keys: &Vec<Vec<u8>>) -> (r: Vec<
        (Vec<u8>, Option<Vec<u8>>),
    >)
        requires
            self.wf(),
        ensures
            r.deep_view() == Seq::new(
                dedup_first(keys.deep_view()).len(),
                |i: int|
                    (
                        dedup_first(keys.deep_view())[i],
                        lookup_of(self.as_map(), cf.name_view(), dedup_first(keys.deep_view())[i]),
                    ),
            ),
    {
        let uk = unique_keys(keys);
        let mut r: Vec<(Vec<u8>, Option<Vec<u8>>)> = Vec::new();
        let n = uk.len();
        proof {
            assert(uk.deep_view().len() == uk@.len());
        }
        let mut i: usize = 0;
        while i < n
            invariant
                self.wf(),
                n == uk@.len(),
                uk.deep_view() == dedup_first(keys.deep_view()),
                uk.deep_view().len() == uk@.len(),
                0 <= i <= n,
                r@.len() == i,
                forall|j: int|
                    0 <= j < i ==> (#[trigger] r@[j]).0@ == uk.deep_view()[j] && r@[j].1.deep_view()
                        == lookup_of(self.as_map(), cf.name_view(), uk.deep_view()[j]),
            decreases n - i,
        {
            proof {
                assert(uk.deep_view()[i as int] == uk@[i as int].deep_view());
                assert(uk@[i as int].deep_view() =~= uk@[i as int]@);
            }
            let key = crate::bytes::dup_bytes(&uk[i]);
            let value = self.get_cf(cf, &key);
            r.push((key, value));
            i = i + 1;
        }
        proof {
            assert(r.deep_view() =~= Seq::new(
                dedup_first(keys.deep_view()).len(),
                |i: int|
                    (
                        dedup_first(keys.deep_view())[i],
                        lookup_of(self.as_map(), cf.name_view(), dedup_first(keys.deep_view())[i]),
                    ),
            )) by {
                assert forall|j: int| 0 <= j < r@.len() implies r.deep_view()[j] == (
                    dedup_first(keys.deep_view())[j],
                    lookup_of(self.as_map(), cf.name_view(), dedup_first(keys.deep_view())[j]),
                ) by {
                    assert(r.deep_view()[j] == r@[j].deep_view());
                    assert(r@[j].0.deep_view() =~= r@[j].0@);
                }
            }
        }
        r
    }

    /// The value-or-absent for each distinct key of `keys` in the `default`
    /// column family, keyed by first occurrence in input order.
    pub fn multi_get(&self, keys: &Vec<Vec<u8>>) -> (r: Vec<(Vec<u8>, Option<Vec<u8>>)>)
        requires
            self.wf(),
        ensures
            r.deep_view() == Seq::new(
                dedup_first(keys.deep_view()).len(),
                |i: int|
                    (
                        dedup_first(keys.deep_view())[i],
                        lookup_of(self.as_map(), default_cf(), dedup_first(keys.deep_view())[i]),
                    ),
            ),
    {
        proof {
            self.lemma_view_facts();
        }
        let cf = ColumnFamily { name: "default".to_owned() };
        self.multi_get_cf(&cf, keys)
    }
}

/// What iterating a column family's mapping in a mode yields: `Start` is the
/// whole mapping in ascending key order, `End` the same reversed, and `From`
/// the keys on one side of the starting key, walked away from it.
pub open spec fn cf_iter_post(
    m: Map<Seq<u8>, Seq<u8>>,
    mode: IterMode,
    out: Seq<(Seq<u8>, Seq<u8>)>,
) -> bool {
    &&& (mode is Start ==> sorted_entries_of(m, out))
    &&& (mode is End ==> sorted_entries_of(m, out.reverse()))
    &&& (mode matches IterMode::From(k, d) ==> ((d == crate::iterator::Direction::Forward
        ==> exists|all: Seq<(Seq<u8>, Seq<u8>)>, p: int|
        sorted_entries_of(m, all) && 0 <= p <= all.len() && (forall|j: int|
            0 <= j < p ==> crate::bytes::lex_lt((#[trigger] all[j]).0, k@)) && (p == all.len()
            || !crate::bytes::lex_lt(all[p].0, k@)) && out == all.subrange(p, all.len() as int))
        && (d == crate::iterator::Direction::Reverse ==> exists|all: Seq<(Seq<u8>, Seq<u8>)>, q: int|
        sorted_entries_of(m, all) && 0 <= q <= all.len() && (forall|j: int|
            0 <= j < q ==> crate::bytes::lex_lt((#[trigger] all[j]).0, k@) || all[j].0 == k@) && (q
            == all.len() || crate::bytes::lex_lt(k@, all[q].0)) && out == all.subrange(
            0,
            q,
        ).reverse())))
}

/// `out` lists exactly the entries of `m`, in strictly ascending key order.
pub open spec fn sorted_entries_of(m: Map<Seq<u8>, Seq<u8>>, out: Seq<(Seq<u8>, Seq<u8>)>) -> bool {
    &&& forall|i: int, j: int|
        0 <= i < j < out.len() ==> crate::bytes::lex_lt(
            (#[trigger] out[i]).0,
            (#[trigger] out[j]).0,
        )
    &&& forall|i: int|
        0 <= i < out.len() ==> m.dom().contains((#[trigger] out[i]).0) && m[out[i].0] == out[i].1
    &&& forall|k: Seq<u8>|
        m.dom().contains(k) ==> exists|i: int| 0 <= i < out.len() && (#[trigger] out[i]).0 == k
}

/// What a well-formed column family yields under each mode meets
/// `cf_iter_post`.
proof fn lemma_cf_iter_post(kv: KvMap, mode: IterMode, out: Seq<(Seq<u8>, Seq<u8>)>)
    requires
        kv.wf(),
        (mode is Start ==> out == kv.entries()),
        (mode is End ==> out == kv.entries().reverse()),
        (mode matches IterMode::From(k, d) ==> ((d == crate::iterator::Direction::Forward
            ==> exists|p: int|
            0 <= p <= kv.entries().len() && (forall|j: int|
                0 <= j < p ==> crate::bytes::lex_lt((#[trigger] kv.entries()[j]).0, k@)) && (p
                == kv.entries().len() || !crate::bytes::lex_lt(kv.entries()[p].0, k@)) && out
                == kv.entries().subrange(p, kv.entries().len() as int)) && (d
            == crate::iterator::Direction::Reverse ==> exists|q: int|
            0 <= q <= kv.entries().len() && (forall|j: int|
                0 <= j < q ==> crate::bytes::lex_lt((#[trigger] kv.entries()[j]).0, k@)
                    || kv.entries()[j].0 == k@) && (q == kv.entries().len()
                || crate::bytes::lex_lt(k@, kv.entries()[q].0)) && out == kv.entries().subrange(
                0,
                q,
            ).reverse()))),
    ensures
        cf_iter_post(kv.as_map(), mode, out),
{
    kv.lemma_view_facts();
    kv.lemma_distinct_keys();
    assert(sorted_entries_of(kv.as_map(), kv.entries()));
    match mode {
        IterMode::Start => {},
        IterMode::End => {
            assert(out.reverse() =~= kv.entries());
        },
        IterMode::From(k, d) => {
            if d == crate::iterator::Direction::Forward {
                let p = choose|p: int|
                    0 <= p <= kv.entries().len() && (forall|j: int|
                        0 <= j < p ==> crate::bytes::lex_lt((#[trigger] kv.entries()[j]).0, k@))
                        && (p == kv.entries().len() || !crate::bytes::lex_lt(
                        kv.entries()[p].0,
                        k@,
                    )) && out == kv.entries().subrange(p, kv.entries().len() as int);
                assert(sorted_entries_of(kv.as_map(), kv.entries()) && 0 <= p
                    <= kv.entries().len() && (forall|j: int|
                    0 <= j < p ==> crate::bytes::lex_lt((#[trigger] kv.entries()[j]).0, k@)) && (p
                    == kv.entries().len() || !crate::bytes::lex_lt(kv.entries()[p].0, k@)) && out
                    == kv.entries().subrange(p, kv.entries().len() as int));
            } else {
                let q = choose|q: int|
                    0 <= q <= kv.entries().len() && (forall|j: int|
                        0 <= j < q ==> crate::bytes::lex_lt((#[trigger] kv.entries()[j]).0, k@)
                            || kv.entries()[j].0 == k@) && (q == kv.entries().len()
                        || crate::bytes::lex_lt(k@, kv.entries()[q].0)) && out
                        == kv.entries().subrange(0, q).reverse();
                assert(sorted_entries_of(kv.as_map(), kv.entries()) && 0 <= q
                    <= kv.entries().len() && (forall|j: int|
                    0 <= j < q ==> crate::bytes::lex_lt((#[trigger] kv.entries()[j]).0, k@)
                        || kv.entries()[j].0 == k@) && (q == kv.entries().len()
                    || crate::bytes::lex_lt(k@, kv.entries()[q].0)) && out
                    == kv.entries().subrange(0, q).reverse());
            }
        },
    }
}

} // verus!
