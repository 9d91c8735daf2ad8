//! A single column family's contents: byte keys mapped to byte values, held
//! in ascending lexicographic key order so that iteration is ordered the way
//! the engine orders it.

use vstd::prelude::*;

use crate::assoc::{
    lemma_map_of_contains, lemma_map_of_index, lemma_map_of_insert_at, lemma_map_of_remove_at,
    map_of,
};
use crate::bytes::{lex_cmp, lex_lt, lemma_lex_trichotomy, lemma_lex_transitive, KeyOrder};

verus! {

/// A key-value store for one column family, its entries kept in strictly
/// ascending lexicographic key order.
#[derive(Debug)]
pub struct KvMap {
    pairs: Vec<(Vec<u8>, Vec<u8>)>,
}

impl KvMap {
    /// The entries in storage order, as mathematical byte strings.
    pub closed spec fn entries(self) -> Seq<(Seq<u8>, Seq<u8>)> {
        self.pairs.deep_view()
    }

    /// Entries are strictly ascending by key.
    pub open spec fn wf(self) -> bool {
        forall|i: int, j: int|
            0 <= i < j < self.entries().len() ==> lex_lt(
                (#[trigger] self.entries()[i]).0,
                (#[trigger] self.entries()[j]).0,
            )
    }

    /// The mapping from keys to values that this store holds.
    pub open spec fn as_map(self) -> Map<Seq<u8>, Seq<u8>> {
        map_of(self.entries())
    }

    /// Each entry is the pair of views of the stored vectors.
    proof fn lemma_shape(self)
        ensures
            self.entries().len() == self.pairs@.len(),
            forall|j: int|
                0 <= j < self.pairs@.len() ==> #[trigger] self.entries()[j] == (
                    self.pairs@[j].0@,
                    self.pairs@[j].1@,
                ),
    {
        assert forall|j: int| 0 <= j < self.pairs@.len() implies #[trigger] self.entries()[j] == (
            self.pairs@[j].0@,
            self.pairs@[j].1@,
        ) by {
            assert(self.pairs@[j].0.deep_view() =~= self.pairs@[j].0@);
            assert(self.pairs@[j].1.deep_view() =~= self.pairs@[j].1@);
        }
    }

    /// Strict ascending order makes all keys pairwise distinct.
    pub proof fn lemma_distinct_keys(self)
        requires
            self.wf(),
        ensures
            forall|p: int, q: int|
                0 <= p < q < self.entries().len() ==> (#[trigger] self.entries()[p]).0
                    != (#[trigger] self.entries()[q]).0,
    {
        assert forall|p: int, q: int| 0 <= p < q < self.entries().len() implies (
        #[trigger] self.entries()[p]).0 != (#[trigger] self.entries()[q]).0 by {
            lemma_lex_trichotomy(self.entries()[p].0, self.entries()[q].0);
        }
    }

    /// The mapping holds a key exactly when some entry holds it, and sends
    /// each entry's key to that entry's value.
    pub proof fn lemma_view_facts(self)
        requires
            self.wf(),
        ensures
            forall|k: Seq<u8>|
                self.as_map().dom().contains(k) <==> exists|i: int|
                    0 <= i < self.entries().len() && (#[trigger] self.entries()[i]).0 == k,
            forall|i: int|
                0 <= i < self.entries().len() ==> self.as_map().dom().contains(
                    (#[trigger] self.entries()[i]).0,
                ) && self.as_map()[self.entries()[i].0] == self.entries()[i].1,
    {
        lemma_map_of_contains(self.entries());
        self.lemma_distinct_keys();
        assert forall|i: int| 0 <= i < self.entries().len() implies self.as_map().dom().contains(
            (#[trigger] self.entries()[i]).0,
        ) && self.as_map()[self.entries()[i].0] == self.entries()[i].1 by {
            lemma_map_of_index(self.entries(), i);
        }
    }

    /// An empty store.
    pub fn new() -> (r: KvMap)
        ensures
            r.wf(),
            r.entries() == Seq::<(Seq<u8>, Seq<u8>)>::empty(),
            r.as_map() == Map::<Seq<u8>, Seq<u8>>::empty(),
    {
        let r = KvMap { pairs: Vec::new() };
        proof {
            r.lemma_shape();
            assert(r.entries() =~= Seq::<(Seq<u8>, Seq<u8>)>::empty());
        }
        r
    }

    /// Whether the store holds no key at all.
    pub fn is_empty(&self) -> (r: bool)
        requires
            self.wf(),
        ensures
            r <==> self.entries().len() == 0,
            r <==> self.as_map() == Map::<Seq<u8>, Seq<u8>>::empty(),
    {
        proof {
            self.lemma_shape();
            self.lemma_view_facts();
            if self.entries().len() == 0 {
                assert(self.as_map() =~= Map::<Seq<u8>, Seq<u8>>::empty());
            } else {
                assert(self.as_map().dom().contains(self.entries()[0].0));
            }
        }
        self.pairs.len() == 0
    }

    /// Finds where `key` stands: the index of the first entry whose key is
    /// not below `key`, and whether that entry holds `key` itself.
    fn locate(&self, key: &Vec<u8>) -> (r: (usize, bool))
        requires
            self.wf(),
        ensures
            r.0 <= self.entries().len(),
            forall|j: int| 0 <= j < r.0 ==> lex_lt((#[trigger] self.entries()[j]).0, key@),
            r.1 ==> r.0 < self.entries().len() && self.entries()[r.0 as int].0 == key@,
            !r.1 && r.0 < self.entries().len() ==> lex_lt(key@, self.entries()[r.0 as int].0),
            !r.1 ==> forall|j: int|
                0 <= j < self.entries().len() ==> (#[trigger] self.entries()[j]).0 != key@,
    {
        proof {
            self.lemma_shape();
        }
        let n = self.pairs.len();
        let mut i: usize = 0;
        while i < n
            invariant
                self.wf(),
                n == self.entries().len(),
                n == self.pairs@.len(),
                0 <= i <= n,
                forall|j: int|
                    0 <= j < self.pairs@.len() ==> #[trigger] self.entries()[j] == (
                        self.pairs@[j].0@,
                        self.pairs@[j].1@,
                    ),
                forall|j: int| 0 <= j < i ==> lex_lt((#[trigger] self.entries()[j]).0, key@),
            decreases n - i,
        {
            let c = lex_cmp(&self.pairs[i].0, key);
            match c {
                KeyOrder::Less => {
                    i = i + 1;
                },
                KeyOrder::Equal => {
                    return (i, true);
                },
                KeyOrder::Greater => {
                    proof {
                        assert forall|j: int|
                            0 <= j < self.entries().len() implies (#[trigger] self.entries()[j]).0
                            != key@ by {
                            lemma_lex_trichotomy(self.entries()[j].0, key@);
                            if j > i {
                                lemma_lex_transitive(
                                    key@,
                                    self.entries()[i as int].0,
                                    self.entries()[j].0,
                                );
                            }
                        }
                    }
                    return (i, false);
                },
            }
        }
        proof {
            assert forall|j: int| 0 <= j < self.entries().len() implies (
            #[trigger] self.entries()[j]).0 != key@ by {
                lemma_lex_trichotomy(self.entries()[j].0, key@);
            }
        }
        (n, false)
    }

    /// The value stored under `key`, copied out, or `None` when the key is
    /// absent.  A missing key is not an error.
    pub fn get(&self, key: &Vec<u8>) -> (r: Option<Vec<u8>>)
        requires
            self.wf(),
        ensures
            r is Some <==> self.as_map().dom().contains(key@),
            r is Some ==> r.unwrap()@ == self.as_map()[key@],
    {
        proof {
            self.lemma_shape();
            self.lemma_view_facts();
        }
        let (i, found) = self.locate(key);
        if found {
            Some(crate::bytes::dup_bytes(&self.pairs[i].1))
        } else {
            None
        }
    }

    /// Inserts `value` under `key`, replacing any previous value.
    pub fn put(&mut self, key: Vec<u8>, value: Vec<u8>)
        requires
            old(self).wf(),
        ensures
            final(self).wf(),
            final(self).as_map() == old(self).as_map().insert(key@, value@),
    {
        let ghost pre = old(self).entries();
        proof {
            old(self).lemma_shape();
            old(self).lemma_distinct_keys();
        }
        let (i, found) = self.locate(&key);
        if found {
            self.pairs.remove(i);
            self.pairs.insert(i, (key, value));
            proof {
                self.lemma_shape();
                let post = self.entries();
                let mid = pre.remove(i as int);
                assert(post =~= mid.insert(i as int, (key@, value@)));
                lemma_map_of_remove_at(pre, i as int);
                assert(forall|l: int|
                    0 <= l < mid.len() ==> (#[trigger] mid[l]) == if l < i {
                        pre[l]
                    } else {
                        pre[l + 1]
                    });
                assert(forall|l: int| 0 <= l < mid.len() ==> (#[trigger] mid[l]).0 != key@);
                lemma_map_of_insert_at(mid, i as int, key@, value@);
                assert(map_of(post) == map_of(pre).remove(key@).insert(key@, value@));
                assert(map_of(pre).remove(key@).insert(key@, value@) =~= map_of(pre).insert(
                    key@,
                    value@,
                ));
                assert forall|p: int, q: int| 0 <= p < q < post.len() implies lex_lt(
                    (#[trigger] post[p]).0,
                    (#[trigger] post[q]).0,
                ) by {
                    assert(pre[p].0 == post[p].0 || (p == i && post[p].0 == key@ && pre[p].0
                        == key@));
                    assert(pre[q].0 == post[q].0 || (q == i && post[q].0 == key@ && pre[q].0
                        == key@));
                }
            }
        } else {
            self.pairs.insert(i, (key, value));
            proof {
                self.lemma_shape();
                let post = self.entries();
                assert(post =~= pre.insert(i as int, (key@, value@)));
                lemma_map_of_insert_at(pre, i as int, key@, value@);
                assert forall|p: int, q: int| 0 <= p < q < post.len() implies lex_lt(
                    (#[trigger] post[p]).0,
                    (#[trigger] post[q]).0,
                ) by {
                    assert(post[p] == if p < i {
                        pre[p]
                    } else if p == i {
                        (key@, value@)
                    } else {
                        pre[p - 1]
                    });
                    assert(post[q] == if q < i {
                        pre[q]
                    } else if q == i {
                        (key@, value@)
                    } else {
                        pre[q - 1]
                    });
                    if p == i && q > i && i < pre.len() && lex_lt(key@, pre[i as int].0) && q - 1
                        > i {
                        lemma_lex_transitive(key@, pre[i as int].0, pre[q - 1].0);
                    }
                }
            }
        }
    }

    /// Removes `key` and its value; absent keys are left as they are.
    pub fn delete(&mut self, key: &Vec<u8>)
        requires
            old(self).wf(),
        ensures
            final(self).wf(),
            final(self).as_map() == old(self).as_map().remove(key@),
    {
        let ghost pre = old(self).entries();
        proof {
            old(self).lemma_shape();
            old(self).lemma_distinct_keys();
            lemma_map_of_contains(pre);
        }
        let (i, found) = self.locate(key);
        if found {
            self.pairs.remove(i);
            proof {
                self.lemma_shape();
                let post = self.entries();
                assert(post =~= pre.remove(i as int));
                lemma_map_of_remove_at(pre, i as int);
                assert forall|p: int, q: int| 0 <= p < q < post.len() implies lex_lt(
                    (#[trigger] post[p]).0,
                    (#[trigger] post[q]).0,
                ) by {
                    assert(post[p] == if p < i {
                        pre[p]
                    } else {
                        pre[p + 1]
                    });
                    assert(post[q] == if q < i {
                        pre[q]
                    } else {
                        pre[q + 1]
                    });
                }
            }
        } else {
            proof {
                assert(!map_of(pre).dom().contains(key@));
                assert(self.as_map() =~= old(self).as_map().remove(key@));
            }
        }
    }

    /// All entries in ascending key order, copied out.
    pub fn entries_vec(&self) -> (r: Vec<(Vec<u8>, Vec<u8>)>)
        ensures
            r.deep_view() == self.entries(),
    {
        proof {
            self.lemma_shape();
        }
        let mut r: Vec<(Vec<u8>, Vec<u8>)> = Vec::new();
        let mut i: usize = 0;
        while i < self.pairs.len()
            invariant
                0 <= i <= self.pairs@.len(),
                r@.len() == i,
                forall|j: int|
                    0 <= j < i ==> (#[trigger] r@[j]).0@ == self.pairs@[j].0@ && r@[j].1@
                        == self.pairs@[j].1@,
            decreases self.pairs@.len() - i,
        {
            let k = crate::bytes::dup_bytes(&self.pairs[i].0);
            let v = crate::bytes::dup_bytes(&self.pairs[i].1);
            r.push((k, v));
            i = i + 1;
        }
        proof {
            self.lemma_shape();
            let rv = KvMap { pairs: r };
            rv.lemma_shape();
            assert(r.deep_view() =~= self.entries());
        }
        r
    }

    /// Copies the entries with indices in `from .. to`, in storage order or
    /// reversed.
    fn copy_span(&self, from: usize, to: usize, rev: bool) -> (r: Vec<(Vec<u8>, Vec<u8>)>)
        requires
            from <= to <= self.entries().len(),
        ensures
            !rev ==> r.deep_view() == self.entries().subrange(from as int, to as int),
            rev ==> r.deep_view() == self.entries().subrange(from as int, to as int).reverse(),
    {
        proof {
            self.lemma_shape();
        }
        let mut r: Vec<(Vec<u8>, Vec<u8>)> = Vec::new();
        let mut j: usize = 0;
        let count = to - from;
        while j < count
            invariant
                from <= to <= self.pairs@.len(),
                count == to - from,
                0 <= j <= count,
                r@.len() == j,
                forall|l: int|
                    0 <= l < j ==> (#[trigger] r@[l]).0@ == self.pairs@[
                        if !rev {
                            from + l
                        } else {
                            to - 1 - l
                        }
                    ].0@ && r@[l].1@ == self.pairs@[
                        if !rev {
                            from + l
                        } else {
                            to - 1 - l
                        }
                    ].1@,
            decreases count - j,
        {
            let src = if !rev {
                from + j
            } else {
                to - 1 - j
            };
            let k = crate::bytes::dup_bytes(&self.pairs[src].0);
            let v = crate::bytes::dup_bytes(&self.pairs[src].1);
            r.push((k, v));
            j = j + 1;
        }
        proof {
            self.lemma_shape();
            let rv = KvMap { pairs: r };
            rv.lemma_shape();
            if !rev {
                assert(r.deep_view() =~= self.entries().subrange(from as int, to as int));
            } else {
                assert(r.deep_view() =~= self.entries().subrange(from as int, to as int).reverse());
            }
        }
        r
    }

    /// The entries that an iterator opened in `mode` yields, in yield order:
    /// all entries ascending from the start, all entries descending from the
    /// end, or the entries on the far side of a given key, walked away from
    /// it in the given direction.
    pub fn iter_mode(&self, mode: &crate::iterator::IterMode) -> (r: Vec<(Vec<u8>, Vec<u8>)>)
        requires
            self.wf(),
        ensures
            (mode matches crate::iterator::IterMode::Start) ==> r.deep_view() == self.entries(),
            (mode matches crate::iterator::IterMode::End) ==> r.deep_view()
                == self.entries().reverse(),
            mode matches crate::iterator::IterMode::From(k, d) ==> ((d
                == crate::iterator::Direction::Forward ==> exists|p: int|
                0 <= p <= self.entries().len() && (forall|j: int|
                    0 <= j < p ==> lex_lt((#[trigger] self.entries()[j]).0, k@)) && (p
                    == self.entries().len() || !lex_lt(self.entries()[p].0, k@))
                    && r.deep_view() == self.entries().subrange(p, self.entries().len() as int))
                && (d == crate::iterator::Direction::Reverse ==> exists|q: int|
                0 <= q <= self.entries().len() && (forall|j: int|
                    0 <= j < q ==> lex_lt((#[trigger] self.entries()[j]).0, k@)
                        || self.entries()[j].0 == k@) && (q == self.entries().len() || lex_lt(
                    k@,
                    self.entries()[q].0,
                )) && r.deep_view() == self.entries().subrange(0, q).reverse())),
    {
        let n = self.pairs.len();
        proof {
            self.lemma_shape();
        }
        match mode {
            crate::iterator::IterMode::Start => {
                let r = self.copy_span(0, n, false);
                proof {
                    assert(self.entries().subrange(0, n as int) =~= self.entries());
                }
                r
            },
            crate::iterator::IterMode::End => {
                let r = self.copy_span(0, n, true);
                proof {
                    assert(self.entries().subrange(0, n as int) =~= self.entries());
                }
                r
            },
            crate::iterator::IterMode::From(key, dir) => {
                let (i, found) = self.locate(key);
                match dir {
                    crate::iterator::Direction::Forward => {
                        let r = self.copy_span(i, n, false);
                        proof {
                            if i < n {
                                lemma_lex_trichotomy(self.entries()[i as int].0, key@);
                            }
                            assert(0 <= i as int <= self.entries().len() && (forall|j: int|
                                0 <= j < i as int ==> lex_lt(
                                    (#[trigger] self.entries()[j]).0,
                                    key@,
                                )) && (i as int == self.entries().len() || !lex_lt(
                                self.entries()[i as int].0,
                                key@,
                            )) && r.deep_view() == self.entries().subrange(
                                i as int,
                                self.entries().len() as int,
                            ));
                        }
                        r
                    },
                    crate::iterator::Direction::Reverse => {
                        let q = if found {
                            i + 1
                        } else {
                            i
                        };
                        let r = self.copy_span(0, q, true);
                        proof {
                            assert(0 <= q as int <= self.entries().len() && (forall|j: int|
                                0 <= j < q as int ==> lex_lt((#[trigger] self.entries()[j]).0, key@)
                                    || self.entries()[j].0 == key@) && (q as int
                                == self.entries().len() || lex_lt(key@, self.entries()[q as int].0))
                                && r.deep_view() == self.entries().subrange(0, q as int).reverse());
                        }
                        r
                    },
                }
            },
        }
    }

    /// A deep copy of the store.
    pub fn duplicate(&self) -> (r: KvMap)
        ensures
            r.entries() == self.entries(),
            r.as_map() == self.as_map(),
            r.wf() == self.wf(),
    {
        KvMap { pairs: self.entries_vec() }
    }
}

} // verus!
