//! A string-to-string mapping kept as a vector of pairs with unique
//! keys. It backs a request's headers and query parameters and a
//! response's headers: small tables where insertion overwrites any
//! earlier pair with the same key.

use vstd::prelude::*;

verus! {

/// A pair list read as a map: later pairs overwrite earlier ones.
pub open spec fn entries_map<K, V>(es: Seq<(K, V)>) -> Map<K, V>
    decreases es.len(),
{
    if es.len() == 0 {
        Map::empty()
    } else {
        entries_map(es.drop_last()).insert(es.last().0, es.last().1)
    }
}

/// `es` with the value under `k` replaced in place, or a new pair
/// appended when `k` is not yet a key.
pub open spec fn entries_insert<K, V>(es: Seq<(K, V)>, k: K, v: V) -> Seq<(K, V)>
    decreases es.len(),
{
    if es.len() == 0 {
        seq![(k, v)]
    } else if es[0].0 == k {
        seq![(k, v)] + es.drop_first()
    } else {
        seq![es[0]] + entries_insert(es.drop_first(), k, v)
    }
}

/// No key occurs twice.
pub open spec fn entries_unique<K, V>(es: Seq<(K, V)>) -> bool {
    forall|i: int, j: int| 0 <= i < j < es.len() ==> es[i].0 != es[j].0
}

/// A key is in the map exactly when some pair carries it, and the map
/// then holds that pair's value (keys unique).
pub proof fn lemma_entries_map_index<K, V>(es: Seq<(K, V)>, k: K)
    requires
        entries_unique(es),
    ensures
        entries_map(es).contains_key(k) <==> exists|i: int| 0 <= i < es.len() && es[i].0 == k,
        forall|i: int|
            0 <= i < es.len() && es[i].0 == k ==> entries_map(es).contains_key(k)
                && entries_map(es)[k] == es[i].1,
    decreases es.len(),
{
    if es.len() > 0 {
        let head = es.drop_last();
        assert(entries_unique(head));
        lemma_entries_map_index(head, k);
        if es.last().0 == k {
            assert forall|i: int| 0 <= i < es.len() && es[i].0 == k implies i == es.len() - 1 by {}
        } else {
            assert forall|i: int| 0 <= i < es.len() && es[i].0 == k implies 0 <= i < head.len()
                && head[i].0 == k by {}
            if entries_map(es).contains_key(k) {
                let i = choose|i: int| 0 <= i < head.len() && head[i].0 == k;
                assert(es[i].0 == k);
            }
        }
    }
}

/// Prepending a pair, as a map, adds its key below the rest.
proof fn lemma_entries_map_cons<K, V>(e: (K, V), es: Seq<(K, V)>)
    ensures
        entries_map(seq![e] + es) == if entries_map(es).contains_key(e.0) {
            entries_map(es)
        } else {
            entries_map(es).insert(e.0, e.1)
        },
    decreases es.len(),
{
    let r = seq![e] + es;
    if es.len() == 0 {
        reveal_with_fuel(entries_map, 2);
        assert(r.drop_last() =~= Seq::<(K, V)>::empty());
        assert(r.last() == e);
        assert(entries_map(r) == Map::<K, V>::empty().insert(e.0, e.1));
        assert(entries_map(r) =~~= entries_map(es).insert(e.0, e.1));
    } else {
        let es0 = es.drop_last();
        let last = es.last();
        lemma_entries_map_cons(e, es0);
        assert(r.drop_last() =~= seq![e] + es0);
        assert(r.last() == last);
        assert(entries_map(r) == entries_map(seq![e] + es0).insert(last.0, last.1));
        assert(entries_map(es) == entries_map(es0).insert(last.0, last.1));
        if e.0 == last.0 {
            assert(entries_map(es).contains_key(e.0));
            assert(entries_map(r) =~~= entries_map(es));
        } else if entries_map(es0).contains_key(e.0) {
            assert(entries_map(es).contains_key(e.0));
            assert(entries_map(r) =~~= entries_map(es));
        } else {
            assert(!entries_map(es).contains_key(e.0));
            assert(entries_map(r) =~~= entries_map(es).insert(e.0, e.1));
        }
    }
}

/// Every key of `entries_insert(es, k, v)` is `k` or a key of `es`.
proof fn lemma_entries_insert_keys<K, V>(es: Seq<(K, V)>, k: K, v: V, i: int)
    requires
        0 <= i < entries_insert(es, k, v).len(),
    ensures
        entries_insert(es, k, v)[i].0 == k || exists|j: int|
            0 <= j < es.len() && es[j].0 == entries_insert(es, k, v)[i].0,
    decreases es.len(),
{
    if es.len() == 0 {
    } else if es[0].0 == k {
        if i > 0 {
            assert(entries_insert(es, k, v)[i] == es[i]);
        }
    } else {
        if i > 0 {
            lemma_entries_insert_keys(es.drop_first(), k, v, i - 1);
            let e = entries_insert(es, k, v)[i];
            assert(e == entries_insert(es.drop_first(), k, v)[i - 1]);
            if e.0 != k {
                let j = choose|j: int|
                    0 <= j < es.drop_first().len() && es.drop_first()[j].0 == e.0;
                assert(es[j + 1].0 == e.0);
            }
        }
    }
}

/// Inserting a pair changes the map by exactly that key, keeps the
/// other pairs, and grows the list only when the key is new (keys
/// unique).
pub proof fn lemma_entries_insert_map<K, V>(es: Seq<(K, V)>, k: K, v: V)
    requires
        entries_unique(es),
    ensures
        entries_unique(entries_insert(es, k, v)),
        entries_map(entries_insert(es, k, v)) == entries_map(es).insert(k, v),
        entries_insert(es, k, v).len() == if entries_map(es).contains_key(k) {
            es.len() as int
        } else {
            es.len() + 1int
        },
    decreases es.len(),
{
    lemma_entries_map_index(es, k);
    if es.len() == 0 {
        reveal_with_fuel(entries_map, 2);
        let r = entries_insert(es, k, v);
        assert(r.drop_last() =~= Seq::<(K, V)>::empty());
        assert(entries_map(r) == Map::<K, V>::empty().insert(k, v));
        assert(entries_map(r) =~~= entries_map(es).insert(k, v));
    } else if es[0].0 == k {
        let tail = es.drop_first();
        let r = seq![(k, v)] + tail;
        assert(entries_unique(tail)) by {
            assert forall|i: int, j: int| 0 <= i < j < tail.len() implies tail[i].0
                != tail[j].0 by {
                assert(es[i + 1].0 != es[j + 1].0);
            }
        }
        assert(entries_unique(r)) by {
            assert forall|i: int, j: int| 0 <= i < j < r.len() implies r[i].0 != r[j].0 by {
                if i == 0 {
                    assert(es[0].0 != es[j].0);
                    assert(r[j].0 == es[j].0);
                } else {
                    assert(r[i].0 == es[i].0 && r[j].0 == es[j].0);
                }
            }
        }
        assert(!entries_map(tail).contains_key(k)) by {
            lemma_entries_map_index(tail, k);
            assert forall|i: int| 0 <= i < tail.len() implies tail[i].0 != k by {
                assert(es[0].0 != es[i + 1].0);
            }
        }
        lemma_entries_map_cons((k, v), tail);
        lemma_entries_map_cons(es[0], tail);
        assert(es =~= seq![es[0]] + tail);
        assert(entries_map(r) =~~= entries_map(es).insert(k, v));
    } else {
        let tail = es.drop_first();
        assert(entries_unique(tail)) by {
            assert forall|i: int, j: int| 0 <= i < j < tail.len() implies tail[i].0
                != tail[j].0 by {
                assert(es[i + 1].0 != es[j + 1].0);
            }
        }
        lemma_entries_insert_map(tail, k, v);
        let ti = entries_insert(tail, k, v);
        let r = seq![es[0]] + ti;
        assert(!entries_map(tail).contains_key(es[0].0)) by {
            lemma_entries_map_index(tail, es[0].0);
            assert forall|i: int| 0 <= i < tail.len() implies tail[i].0 != es[0].0 by {
                assert(es[0].0 != es[i + 1].0);
            }
        }
        assert(entries_unique(r)) by {
            assert forall|i: int, j: int| 0 <= i < j < r.len() implies r[i].0 != r[j].0 by {
                if i > 0 {
                    assert(r[i] == ti[i - 1]);
                    assert(r[j] == ti[j - 1]);
                } else {
                    lemma_entries_insert_keys(tail, k, v, j - 1);
                    assert(r[j] == ti[j - 1]);
                    if ti[j - 1].0 == es[0].0 {
                        assert(ti[j - 1].0 != k);
                        let m = choose|m: int| 0 <= m < tail.len() && tail[m].0 == ti[j - 1].0;
                        assert(entries_map(tail).contains_key(es[0].0)) by {
                            lemma_entries_map_index(tail, es[0].0);
                            assert(tail[m].0 == es[0].0);
                        }
                        assert(false);
                    }
                }
            }
        }
        lemma_entries_map_cons(es[0], ti);
        lemma_entries_map_cons(es[0], tail);
        assert(es =~= seq![es[0]] + tail);
        assert(!entries_map(ti).contains_key(es[0].0));
        assert(entries_map(r) == entries_map(ti).insert(es[0].0, es[0].1));
        assert(entries_map(es) == entries_map(tail).insert(es[0].0, es[0].1));
        assert(entries_map(r) =~~= entries_map(es).insert(k, v));
        assert(entries_map(es).contains_key(k) == entries_map(tail).contains_key(k));
    }
}

/// In-place replacement at the pair that holds `k` is `entries_insert`.
pub proof fn lemma_entries_insert_found<K, V>(es: Seq<(K, V)>, k: K, v: V, i: int)
    requires
        0 <= i < es.len(),
        es[i].0 == k,
        forall|j: int| 0 <= j < i ==> es[j].0 != k,
    ensures
        entries_insert(es, k, v) == es.update(i, (k, v)),
    decreases i,
{
    if i == 0 {
        assert(entries_insert(es, k, v) =~= es.update(0, (k, v)));
    } else {
        let tail = es.drop_first();
        assert(forall|j: int| 0 <= j < i - 1 ==> tail[j].0 == es[j + 1].0);
        lemma_entries_insert_found(tail, k, v, i - 1);
        assert(entries_insert(es, k, v) =~= es.update(i, (k, v)));
    }
}

/// When `k` is no key of `es`, inserting appends.
pub proof fn lemma_entries_insert_append<K, V>(es: Seq<(K, V)>, k: K, v: V)
    requires
        forall|j: int| 0 <= j < es.len() ==> es[j].0 != k,
    ensures
        entries_insert(es, k, v) == es.push((k, v)),
    decreases es.len(),
{
    if es.len() == 0 {
        assert(entries_insert(es, k, v) =~= es.push((k, v)));
    } else {
        let tail = es.drop_first();
        assert(forall|j: int| 0 <= j < tail.len() ==> tail[j].0 == es[j + 1].0);
        lemma_entries_insert_append(tail, k, v);
        assert(entries_insert(es, k, v) =~= es.push((k, v)));
    }
}

/// A mapping from strings to strings with unique keys, kept in
/// insertion order.
#[derive(Debug)]
pub struct StringMap {
    entries: Vec<(String, String)>,
}

impl View for StringMap {
    type V = Map<Seq<char>, Seq<char>>;

    open spec fn view(&self) -> Map<Seq<char>, Seq<char>> {
        entries_map(self.entries_view())
    }
}

impl StringMap {
    /// The pairs of the map, in insertion order.
    pub closed spec fn entries_view(&self) -> Seq<(Seq<char>, Seq<char>)> {
        self.entries.deep_view()
    }

    /// Well-formed: no key occurs twice.
    pub open spec fn wf(&self) -> bool {
        entries_unique(self.entries_view())
    }

    /// An empty map.
    pub fn new() -> (r: Self)
        ensures
            r.wf(),
            r@ == Map::<Seq<char>, Seq<char>>::empty(),
            r.entries_view() == Seq::<(Seq<char>, Seq<char>)>::empty(),
    {
        let r = StringMap { entries: Vec::new() };
        assert(r.entries_view() =~= Seq::<(Seq<char>, Seq<char>)>::empty());
        r
    }

    /// The number of pairs.
    pub fn num_entries(&self) -> (n: usize)
        ensures
            n == self.entries_view().len(),
    {
        self.entries.len()
    }

    /// The pair at position `i`, in insertion order.
    pub fn entry_at(&self, i: usize) -> (r: (&String, &String))
        requires
            i < self.entries_view().len(),
    ensures
            r.0@ == self.entries_view()[i as int].0,
            r.1@ == self.entries_view()[i as int].1,
    {
        (&self.entries[i].0, &self.entries[i].1)
    }

    /// Inserts a pair, overwriting any earlier pair with the same key.
    pub fn insert(&mut self, key: String, value: String)
        requires
            old(self).wf(),
        ensures
            final(self).wf(),
            final(self)@ == old(self)@.insert(key@, value@),
            final(self).entries_view() == entries_insert(old(self).entries_view(), key@, value@),
    {
        let ghost es = old(self).entries_view();
        let n = self.entries.len();
        let mut i: usize = 0;
        let mut found: Option<usize> = None;
        while i < n && found.is_none()
            invariant
                es == self.entries_view(),
                n == es.len(),
                i <= n,
                match found {
                    Some(k) => k < n && i == k && es[k as int].0 == key@ && (forall|j: int|
                        0 <= j < k ==> es[j].0 != key@),
                    None => forall|j: int| 0 <= j < i ==> es[j].0 != key@,
                },
            decreases n - i + if found.is_none() {
                1int
            } else {
                0int
            },
        {
            if self.entries[i].0.eq(&key) {
                assert(es[i as int].0 == key@);
                found = Some(i);
            } else {
                i = i + 1;
            }
        }
        match found {
            Some(k) => {
                proof {
                    lemma_entries_insert_found(es, key@, value@, k as int);
                    lemma_entries_insert_map(es, key@, value@);
                }
                let ghost pre = *self;
                self.entries.set(k, (key, value));
                proof {
                    let fin = self.entries_view();
                    let ins = entries_insert(es, key@, value@);
                    assert(ins == es.update(k as int, (key@, value@)));
                    assert(fin.len() == ins.len());
                    assert forall|j: int| 0 <= j < fin.len() implies fin[j] == ins[j] by {
                        assert(fin[j] == self.entries@[j].deep_view());
                        if j != k {
                            assert(self.entries@[j] == pre.entries@[j]);
                            assert(es[j] == pre.entries@[j].deep_view());
                        }
                    }
                    assert(fin =~~= ins);
                    assert(self.entries_view() == entries_insert(es, key@, value@));
                }
            },
            None => {
                proof {
                    lemma_entries_insert_append(es, key@, value@);
                    lemma_entries_insert_map(es, key@, value@);
                }
                let ghost pre = *self;
                self.entries.push((key, value));
                proof {
                    let fin = self.entries_view();
                    let ins = entries_insert(es, key@, value@);
                    assert(fin.len() == ins.len());
                    assert forall|j: int| 0 <= j < fin.len() implies fin[j] == ins[j] by {
                        assert(fin[j] == self.entries@[j].deep_view());
                        if j < es.len() {
                            assert(self.entries@[j] == pre.entries@[j]);
                            assert(es[j] == pre.entries@[j].deep_view());
                        }
                    }
                    assert(fin =~~= ins);
                    assert(self.entries_view() == entries_insert(es, key@, value@));
                }
            },
        }
    }

    /// Looks a key up.
    pub fn get(&self, key: &String) -> (r: Option<&String>)
        requires
            self.wf(),
        ensures
            match r {
                Some(v) => self@.contains_key(key@) && v@ == self@[key@],
                None => !self@.contains_key(key@),
            },
    {
        proof {
            lemma_entries_map_index(self.entries_view(), key@);
        }
        let n = self.entries.len();
        let mut i: usize = 0;
        while i < n
            invariant
                self.wf(),
                n == self.entries_view().len(),
                i <= n,
                forall|j: int| 0 <= j < i ==> self.entries_view()[j].0 != key@,
            decreases n - i,
        {
            if self.entries[i].0.eq(key) {
                assert(self.entries_view()[i as int].0 == key@);
                proof {
                    lemma_entries_map_index(self.entries_view(), key@);
                }
                return Some(&self.entries[i].1);
            }
            assert(self.entries_view()[i as int].0 == self.entries@[i as int].0@);
            i = i + 1;
        }
        None
    }

    /// A copy with the same pairs as the original.
    pub fn duplicate(&self) -> (r: Self)
        ensures
            r.entries_view() == self.entries_view(),
            r@ == self@,
            r.wf() == self.wf(),
    {
        let n = self.entries.len();
        let mut entries: Vec<(String, String)> = Vec::new();
        let mut i: usize = 0;
        while i < n
            invariant
                n == self.entries@.len(),
                i <= n,
                entries.deep_view() == self.entries_view().take(i as int),
            decreases n - i,
        {
            let ghost pre = entries.deep_view();
            entries.push((self.entries[i].0.clone(), self.entries[i].1.clone()));
            i = i + 1;
            proof {
                let fin = entries.deep_view();
                let goal = self.entries_view().take(i as int);
                assert(self.entries_view().len() == n);
                assert(pre.len() == i - 1);
                assert(fin.len() == goal.len());
                assert forall|j: int| 0 <= j < fin.len() implies fin[j] == goal[j] by {
                    assert(fin[j] == entries@[j].deep_view());
                    assert(goal[j] == self.entries@[j].deep_view());
                    if j < i - 1 {
                        assert(fin[j] == pre[j]);
                    }
                }
                assert(fin =~~= goal);
            }
        }
        assert(self.entries_view().take(n as int) =~= self.entries_view());
        let r = StringMap { entries };
        r
    }
}

} // verus!
