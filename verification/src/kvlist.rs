//! Small association containers over string keys, with map-like
//! contracts: a multi-valued map for headers and query parameters, and
//! a single-valued map for cookies and captures.  Lookup is by first
//! occurrence, and every update is specified pointwise.

use vstd::prelude::*;

use crate::strutil::str_eq;

verus! {

/// First value bound to `k` in a single-valued association list.
pub open spec fn sv_get(pairs: Seq<(Seq<char>, Seq<char>)>, k: Seq<char>) -> Option<Seq<char>>
    decreases pairs.len(),
{
    if pairs.len() == 0 {
        None
    } else if pairs.first().0 == k {
        Some(pairs.first().1)
    } else {
        sv_get(pairs.drop_first(), k)
    }
}

/// First value list bound to `k` in a multi-valued association list.
pub open spec fn mv_get(pairs: Seq<(Seq<char>, Seq<Seq<char>>)>, k: Seq<char>) -> Option<
    Seq<Seq<char>>,
>
    decreases pairs.len(),
{
    if pairs.len() == 0 {
        None
    } else if pairs.first().0 == k {
        Some(pairs.first().1)
    } else {
        mv_get(pairs.drop_first(), k)
    }
}

/// A multi-valued map: each key carries a list of values.
#[derive(Debug, Clone)]
pub struct MultiMap {
    pub entries: Vec<(String, Vec<String>)>,
}

/// A single-valued map.
#[derive(Debug, Clone)]
pub struct StrMap {
    pub entries: Vec<(String, String)>,
}

impl MultiMap {
    pub open spec fn model(&self) -> Seq<(Seq<char>, Seq<Seq<char>>)> {
        self.entries.deep_view()
    }

    /// The values under `k`.
    pub open spec fn spec_get(&self, k: Seq<char>) -> Option<Seq<Seq<char>>> {
        mv_get(self.model(), k)
    }

    pub fn new() -> (r: MultiMap)
        ensures
            r.model() == Seq::<(Seq<char>, Seq<Seq<char>>)>::empty(),
    {
        let r = MultiMap { entries: Vec::new() };
        proof {
            assert(r.model() =~= Seq::<(Seq<char>, Seq<Seq<char>>)>::empty());
        }
        r
    }

    /// Index of the first entry with key `k`, if any.
    fn find(&self, k: &str) -> (r: Option<usize>)
        ensures
            match r {
                Some(i) => i < self.model().len() && self.model()[i as int].0 == k@ && forall|
                    j: int,
                |
                    0 <= j < i ==> self.model()[j].0 != k@,
                None => forall|j: int| 0 <= j < self.model().len() ==> self.model()[j].0 != k@,
            },
    {
        let mut i: usize = 0;
        while i < self.entries.len()
            invariant
                i <= self.entries@.len(),
                self.model().len() == self.entries@.len(),
                forall|j: int| 0 <= j < i ==> self.model()[j].0 != k@,
            decreases self.entries@.len() - i,
        {
            if str_eq(self.entries[i].0.as_str(), k) {
                return Some(i);
            }
            i += 1;
        }
        None
    }

    /// All values under `k`, if the key is present.
    pub fn get_all(&self, k: &str) -> (r: Option<&Vec<String>>)
        ensures
            match r {
                Some(v) => self.spec_get(k@) == Some(v.deep_view()),
                None => self.spec_get(k@) is None,
            },
    {
        proof {
            lemma_mv_get_first(self.model(), k@);
        }
        match self.find(k) {
            Some(i) => Some(&self.entries[i].1),
            None => None,
        }
    }

    /// The first value under `k`, if any.
    pub fn get_first(&self, k: &str) -> (r: Option<&String>)
        ensures
            match r {
                Some(v) => self.spec_get(k@) matches Some(vs) && vs.len() > 0 && vs.first() == v@,
                None => self.spec_get(k@) is None || self.spec_get(k@).unwrap().len() == 0,
            },
    {
        match self.get_all(k) {
            Some(vs) => {
                if vs.len() > 0 {
                    Some(&vs[0])
                } else {
                    None
                }
            },
            None => None,
        }
    }

    /// Replace the values under `k` by exactly `[v]`.
    pub fn set(&mut self, k: String, v: String)
        ensures
            final(self).model() == mm_set_s(old(self).model(), k@, v@),
            forall|q: Seq<char>| #[trigger]
                mv_get(final(self).model(), q) == if q == k@ {
                    Some(seq![v@])
                } else {
                    mv_get(old(self).model(), q)
                },
    {
        let ghost m0 = self.model();
        let ghost gk = k@;
        let ghost gv = v@;
        let idx = self.find(k.as_str());
        match idx {
            Some(i) => {
                let ghost m0v = self.entries@;
                let mut vs: Vec<String> = Vec::new();
                vs.push(v);
                proof {
                    assert(vs.deep_view() =~= seq![gv]);
                }
                self.entries[i] = (k, vs);
                proof {
                    assert(self.entries@.len() == m0v.len());
                    assert forall|j: int|
                        0 <= j < m0v.len() && j != i as int implies self.entries@[j]
                        == m0v[j] by {}
                    assert(self.model().len() == m0.len());
                    assert(self.model()[i as int] == (gk, seq![gv]));
                    assert forall|j: int|
                        0 <= j < m0.len() && j != i as int implies self.model()[j] == m0[j] by {
                        assert(self.entries@[j] == m0v[j]);
                    }
                    assert forall|q: Seq<char>| #[trigger]
                        mv_get(self.model(), q) == if q == gk {
                            Some(seq![gv])
                        } else {
                            mv_get(m0, q)
                        } by {
                        lemma_mv_update_first(m0, self.model(), i as int, gk, seq![gv], q);
                    }
                    lemma_mm_set_at(m0, i as int, gk, gv);
                    assert(self.model() =~= m0.update(i as int, (gk, seq![gv])));
                }
            },
            None => {
                let mut vs: Vec<String> = Vec::new();
                vs.push(v);
                proof {
                    assert(vs.deep_view() =~= seq![gv]);
                }
                self.entries.push((k, vs));
                proof {
                    assert(self.model() =~= m0.push((gk, seq![gv])));
                    assert forall|q: Seq<char>| #[trigger]
                        mv_get(self.model(), q) == if q == gk {
                            Some(seq![gv])
                        } else {
                            mv_get(m0, q)
                        } by {
                        lemma_mv_append(m0, gk, seq![gv], q, self.model());
                    }
                    lemma_mm_set_absent(m0, gk, gv);
                }
            },
        }
    }

    /// Append `v` to the values under `k`, creating the key if needed.
    pub fn add(&mut self, k: String, v: String)
        ensures
            final(self).model() == mm_add_s(old(self).model(), k@, v@),
            forall|q: Seq<char>| #[trigger]
                mv_get(final(self).model(), q) == if q == k@ {
                    match mv_get(old(self).model(), q) {
                        Some(vs) => Some(vs.push(v@)),
                        None => Some(seq![v@]),
                    }
                } else {
                    mv_get(old(self).model(), q)
                },
    {
        let ghost m0 = self.model();
        let ghost gk = k@;
        let ghost gv = v@;
        let idx = self.find(k.as_str());
        match idx {
            Some(i) => {
                let ghost m0v = self.entries@;
                let mut entry = self.entries.remove(i);
                let ghost vs0 = entry.1.deep_view();
                entry.1.push(v);
                proof {
                    assert(entry.1.deep_view() =~= vs0.push(gv));
                }
                self.entries.insert(i, entry);
                proof {
                    assert(self.entries@.len() == m0v.len());
                    assert forall|j: int|
                        0 <= j < m0v.len() && j != i as int implies self.entries@[j]
                        == m0v[j] by {
                        if j < i as int {
                            assert(self.entries@[j] == m0v.remove(i as int)[j]);
                        } else {
                            assert(self.entries@[j] == m0v.remove(i as int)[j - 1]);
                        }
                    }
                    assert(vs0 == m0[i as int].1);
                    assert(self.model()[i as int] == (gk, vs0.push(gv)));
                    assert forall|j: int|
                        0 <= j < m0.len() && j != i as int implies self.model()[j] == m0[j] by {
                        assert(self.entries@[j] == m0v[j]);
                    }
                    assert(mv_get(m0, gk) == Some(vs0)) by {
                        lemma_mv_get_first(m0, gk);
                    }
                    assert forall|q: Seq<char>| #[trigger]
                        mv_get(self.model(), q) == if q == gk {
                            Some(vs0.push(gv))
                        } else {
                            mv_get(m0, q)
                        } by {
                        lemma_mv_update_first(m0, self.model(), i as int, gk, vs0.push(gv), q);
                    }
                    lemma_mm_add_at(m0, i as int, gk, gv);
                    assert(self.model() =~= m0.update(i as int, (gk, m0[i as int].1.push(gv))));
                }
            },
            None => {
                let mut vs: Vec<String> = Vec::new();
                vs.push(v);
                proof {
                    assert(vs.deep_view() =~= seq![gv]);
                }
                self.entries.push((k, vs));
                proof {
                    assert(self.model() =~= m0.push((gk, seq![gv])));
                    lemma_mv_get_first(m0, gk);
                    assert(mv_get(m0, gk) is None);
                    lemma_mm_add_absent(m0, gk, gv);
                    assert forall|q: Seq<char>| #[trigger]
                        mv_get(self.model(), q) == if q == gk {
                            Some(seq![gv])
                        } else {
                            mv_get(m0, q)
                        } by {
                        lemma_mv_append(m0, gk, seq![gv], q, self.model());
                    }
                }
            },
        }
    }

    /// Remove every entry under `k`.
    pub fn remove(&mut self, k: &str)
        ensures
            final(self).model() == remove_key_model(old(self).model(), k@),
            forall|q: Seq<char>| #[trigger]
                mv_get(final(self).model(), q) == if q == k@ {
                    None::<Seq<Seq<char>>>
                } else {
                    mv_get(old(self).model(), q)
                },
    {
        let mut out: Vec<(String, Vec<String>)> = Vec::new();
        let ghost m0 = self.model();
        let mut i: usize = 0;
        proof {
            assert(out.deep_view() =~= remove_key_model(m0.take(0), k@));
        }
        while i < self.entries.len()
            invariant
                i <= self.entries@.len(),
                self.model() == m0,
                self.model().len() == self.entries@.len(),
                out.deep_view() == remove_key_model(m0.take(i as int), k@),
            decreases self.entries@.len() - i,
        {
            let ghost o0 = out.deep_view();
            let keep = !str_eq(self.entries[i].0.as_str(), k);
            if keep {
                let kk = self.entries[i].0.clone();
                let vv = clone_string_values(&self.entries[i].1);
                out.push((kk, vv));
                proof {
                    assert(out.deep_view() =~= o0.push(m0[i as int]));
                }
            }
            proof {
                assert(m0.take(i as int + 1).drop_last() =~= m0.take(i as int));
                assert(m0.take(i as int + 1).last() == m0[i as int]);
                lemma_remove_key_step(m0.take(i as int + 1), k@);
            }
            i += 1;
        }
        proof {
            assert(m0.take(m0.len() as int) =~= m0);
        }
        self.entries = out;
        proof {
            lemma_remove_key_get(m0, k@);
        }
    }

    /// Drop every entry.
    pub fn clear(&mut self)
        ensures
            final(self).model() == Seq::<(Seq<char>, Seq<Seq<char>>)>::empty(),
            forall|q: Seq<char>| #[trigger] mv_get(final(self).model(), q) is None,
    {
        self.entries = Vec::new();
        proof {
            assert(self.model() =~= Seq::<(Seq<char>, Seq<Seq<char>>)>::empty());
        }
    }

    /// Number of distinct entries.
    pub fn len(&self) -> (r: usize)
        ensures
            r == self.model().len(),
    {
        self.entries.len()
    }

    /// Whether no entry exists.
    pub fn is_empty(&self) -> (r: bool)
        ensures
            r == (self.model().len() == 0),
    {
        self.entries.len() == 0
    }

    /// An identical copy.
    pub fn duplicate(&self) -> (r: MultiMap)
        ensures
            r.model() == self.model(),
    {
        let mut entries: Vec<(String, Vec<String>)> = Vec::new();
        let mut i: usize = 0;
        proof {
            assert(entries.deep_view() =~= self.model().take(0));
        }
        while i < self.entries.len()
            invariant
                i <= self.entries@.len(),
                self.model().len() == self.entries@.len(),
                entries.deep_view() == self.model().take(i as int),
            decreases self.entries@.len() - i,
        {
            let ghost e0 = entries.deep_view();
            let k = self.entries[i].0.clone();
            let vs = clone_string_values(&self.entries[i].1);
            entries.push((k, vs));
            proof {
                assert(entries.deep_view() =~= e0.push(self.model()[i as int]));
                assert(self.model().take(i as int + 1).drop_last() =~= self.model().take(
                    i as int,
                ));
                assert(entries.deep_view() =~= self.model().take(i as int + 1));
            }
            i += 1;
        }
        proof {
            assert(self.model().take(self.model().len() as int) =~= self.model());
        }
        MultiMap { entries }
    }
}

/// Element-wise copy of a string vector.
pub fn clone_string_values(v: &Vec<String>) -> (r: Vec<String>)
    ensures
        r.deep_view() == v.deep_view(),
{
    let mut out: Vec<String> = Vec::new();
    let mut i: usize = 0;
    proof {
        assert(out.deep_view() =~= v.deep_view().take(0));
    }
    while i < v.len()
        invariant
            i <= v@.len(),
            out@.len() == i,
            out.deep_view() == v.deep_view().take(i as int),
        decreases v@.len() - i,
    {
        let ghost vec0 = out@;
        let ghost dv0 = out.deep_view();
        out.push(v[i].clone());
        proof {
            assert forall|j: int| 0 <= j < i as int + 1 implies out.deep_view()[j]
                == v.deep_view().take(i as int + 1)[j] by {
                if j < i as int {
                    assert(out@[j] == vec0[j]);
                    assert(out.deep_view()[j] == dv0[j]);
                } else {
                    assert(out@[j] == v@[i as int]);
                }
            }
            assert(out.deep_view() =~= v.deep_view().take(i as int + 1));
        }
        i += 1;
    }
    proof {
        assert(v.deep_view().take(v@.len() as int) =~= v.deep_view());
    }
    out
}

/// The list with every `k`-keyed entry removed.
pub open spec fn remove_key_model(pairs: Seq<(Seq<char>, Seq<Seq<char>>)>, k: Seq<char>) -> Seq<
    (Seq<char>, Seq<Seq<char>>),
>
    decreases pairs.len(),
{
    if pairs.len() == 0 {
        pairs
    } else if pairs.last().0 == k {
        remove_key_model(pairs.drop_last(), k)
    } else {
        remove_key_model(pairs.drop_last(), k).push(pairs.last())
    }
}

proof fn lemma_remove_key_step(pairs: Seq<(Seq<char>, Seq<Seq<char>>)>, k: Seq<char>)
    requires
        pairs.len() > 0,
    ensures
        remove_key_model(pairs, k) == if pairs.last().0 == k {
            remove_key_model(pairs.drop_last(), k)
        } else {
            remove_key_model(pairs.drop_last(), k).push(pairs.last())
        },
{
}

/// Removing a key makes it absent and leaves every other key alone.
proof fn lemma_remove_key_get(pairs: Seq<(Seq<char>, Seq<Seq<char>>)>, k: Seq<char>)
    ensures
        mv_get(remove_key_model(pairs, k), k) is None,
        forall|q: Seq<char>|
            q != k ==> #[trigger] mv_get(remove_key_model(pairs, k), q) == mv_get(pairs, q),
    decreases pairs.len(),
{
    if pairs.len() > 0 {
        lemma_remove_key_get(pairs.drop_last(), k);
        let r = remove_key_model(pairs, k);
        let rd = remove_key_model(pairs.drop_last(), k);
        assert(pairs =~= pairs.drop_last().push(pairs.last()));
        assert forall|q: Seq<char>| q != k implies #[trigger] mv_get(r, q) == mv_get(
            pairs,
            q,
        ) by {
            if pairs.last().0 == k {
                lemma_mv_push_other(pairs.drop_last(), pairs.last(), q);
            } else {
                lemma_mv_push_other(pairs.drop_last(), pairs.last(), q);
                lemma_mv_push_other(rd, pairs.last(), q);
            }
        }
        if pairs.last().0 != k {
            lemma_mv_push_other(rd, pairs.last(), k);
            lemma_mv_push_other(pairs.drop_last(), pairs.last(), k);
        }
    }
}

/// Looking a key up in `pairs.push(e)`: the push only answers when the
/// key was absent before and `e` carries it.
proof fn lemma_mv_push_other(
    pairs: Seq<(Seq<char>, Seq<Seq<char>>)>,
    e: (Seq<char>, Seq<Seq<char>>),
    q: Seq<char>,
)
    ensures
        mv_get(pairs.push(e), q) == if mv_get(pairs, q) is Some {
            mv_get(pairs, q)
        } else if e.0 == q {
            Some(e.1)
        } else {
            None::<Seq<Seq<char>>>
        },
    decreases pairs.len(),
{
    if pairs.len() == 0 {
        assert(pairs.push(e).first() == e);
        assert(pairs.push(e).drop_first() =~= Seq::<(Seq<char>, Seq<Seq<char>>)>::empty());
        assert(mv_get(pairs, q) is None);
        if e.0 == q {
            assert(mv_get(pairs.push(e), q) == Some(e.1));
        } else {
            assert(mv_get(pairs.push(e), q) == mv_get(pairs.push(e).drop_first(), q));
        }
    } else {
        assert(pairs.push(e).first() == pairs.first());
        assert(pairs.push(e).drop_first() =~= pairs.drop_first().push(e));
        lemma_mv_push_other(pairs.drop_first(), e, q);
        if pairs.first().0 == q {
            assert(mv_get(pairs.push(e), q) == Some(pairs.first().1));
            assert(mv_get(pairs, q) == Some(pairs.first().1));
        } else {
            assert(mv_get(pairs.push(e), q) == mv_get(pairs.drop_first().push(e), q));
            assert(mv_get(pairs, q) == mv_get(pairs.drop_first(), q));
        }
    }
}

/// `mv_get` answers with the first matching entry.
proof fn lemma_mv_get_first(pairs: Seq<(Seq<char>, Seq<Seq<char>>)>, k: Seq<char>)
    ensures
        forall|i: int|
            0 <= i < pairs.len() && pairs[i].0 == k && (forall|j: int|
                0 <= j < i ==> pairs[j].0 != k) ==> #[trigger] mv_get(pairs, k) == Some(pairs[i].1),
        (forall|j: int| 0 <= j < pairs.len() ==> pairs[j].0 != k) ==> mv_get(pairs, k) is None,
    decreases pairs.len(),
{
    if pairs.len() > 0 {
        lemma_mv_get_first(pairs.drop_first(), k);
        assert forall|i: int|
            0 <= i < pairs.len() && pairs[i].0 == k && (forall|j: int|
                0 <= j < i ==> pairs[j].0 != k) implies #[trigger] mv_get(pairs, k) == Some(
            pairs[i].1,
        ) by {
            if i > 0 {
                assert(pairs.first().0 != k);
                assert(pairs.drop_first()[i - 1] == pairs[i]);
                assert forall|j: int| 0 <= j < i - 1 implies pairs.drop_first()[j].0 != k by {
                    assert(pairs.drop_first()[j] == pairs[j + 1]);
                }
            }
        }
    }
}

/// Updating the first `k` entry changes `k`'s answer and nothing else.
proof fn lemma_mv_update_first(
    m0: Seq<(Seq<char>, Seq<Seq<char>>)>,
    m1: Seq<(Seq<char>, Seq<Seq<char>>)>,
    i: int,
    k: Seq<char>,
    v: Seq<Seq<char>>,
    q: Seq<char>,
)
    requires
        0 <= i < m0.len(),
        m1.len() == m0.len(),
        m0[i].0 == k,
        forall|j: int| 0 <= j < i ==> m0[j].0 != k,
        m1[i] == (k, v),
        forall|j: int| 0 <= j < m0.len() && j != i ==> m1[j] == m0[j],
    ensures
        mv_get(m1, q) == if q == k {
            Some(v)
        } else {
            mv_get(m0, q)
        },
    decreases m0.len(),
{
    if i == 0 {
        if q == k {
        } else {
            assert(m1.first().0 == k);
            assert(m1.drop_first() =~= m0.drop_first());
        }
    } else {
        assert(m1.first() == m0.first());
        if m0.first().0 == q {
        } else {
            lemma_mv_update_first(m0.drop_first(), m1.drop_first(), i - 1, k, v, q);
            assert(m1.drop_first()[i - 1] == (k, v));
            assert forall|j: int| 0 <= j < m0.drop_first().len() && j != i - 1 implies m1
                .drop_first()[j] == m0.drop_first()[j] by {
                assert(m1.drop_first()[j] == m1[j + 1]);
                assert(m0.drop_first()[j] == m0[j + 1]);
            }
        }
    }
}

/// Appending a fresh key answers for it and changes nothing else.
proof fn lemma_mv_append(
    m0: Seq<(Seq<char>, Seq<Seq<char>>)>,
    k: Seq<char>,
    v: Seq<Seq<char>>,
    q: Seq<char>,
    m1: Seq<(Seq<char>, Seq<Seq<char>>)>,
)
    requires
        forall|j: int| 0 <= j < m0.len() ==> m0[j].0 != k,
        m1 == m0.push((k, v)),
    ensures
        mv_get(m1, q) == if q == k {
            Some(v)
        } else {
            mv_get(m0, q)
        },
{
    lemma_mv_push_other(m0, (k, v), q);
    if q == k {
        lemma_mv_get_first(m0, k);
    }
}

/// Last value bound to `k`: what repeated overwrites leave behind.
pub open spec fn sv_get_last(pairs: Seq<(Seq<char>, Seq<char>)>, k: Seq<char>) -> Option<Seq<char>>
    decreases pairs.len(),
{
    if pairs.len() == 0 {
        None
    } else if pairs.last().0 == k {
        Some(pairs.last().1)
    } else {
        sv_get_last(pairs.drop_last(), k)
    }
}

impl StrMap {
    pub open spec fn model(&self) -> Seq<(Seq<char>, Seq<char>)> {
        self.entries.deep_view()
    }

    /// The value under `k`.
    pub open spec fn spec_get(&self, k: Seq<char>) -> Option<Seq<char>> {
        sv_get(self.model(), k)
    }

    pub fn new() -> (r: StrMap)
        ensures
            r.model() == Seq::<(Seq<char>, Seq<char>)>::empty(),
    {
        let r = StrMap { entries: Vec::new() };
        proof {
            assert(r.model() =~= Seq::<(Seq<char>, Seq<char>)>::empty());
        }
        r
    }

    /// Index of the first entry with key `k`, if any.
    fn find(&self, k: &str) -> (r: Option<usize>)
        ensures
            match r {
                Some(i) => i < self.model().len() && self.model()[i as int].0 == k@ && forall|
                    j: int,
                |
                    0 <= j < i ==> self.model()[j].0 != k@,
                None => forall|j: int| 0 <= j < self.model().len() ==> self.model()[j].0 != k@,
            },
    {
        let mut i: usize = 0;
        while i < self.entries.len()
            invariant
                i <= self.entries@.len(),
                self.model().len() == self.entries@.len(),
                forall|j: int| 0 <= j < i ==> self.model()[j].0 != k@,
            decreases self.entries@.len() - i,
        {
            if str_eq(self.entries[i].0.as_str(), k) {
                return Some(i);
            }
            i += 1;
        }
        None
    }

    /// The value under `k`, if any.
    pub fn get(&self, k: &str) -> (r: Option<&String>)
        ensures
            match r {
                Some(v) => self.spec_get(k@) == Some(v@),
                None => self.spec_get(k@) is None,
            },
    {
        proof {
            lemma_sv_get_first(self.model(), k@);
        }
        match self.find(k) {
            Some(i) => Some(&self.entries[i].1),
            None => None,
        }
    }

    /// Bind `k` to `v`, replacing any earlier binding.
    pub fn set(&mut self, k: String, v: String)
        ensures
            final(self).model() == sv_set_s(old(self).model(), k@, v@),
            forall|q: Seq<char>| #[trigger]
                sv_get(final(self).model(), q) == if q == k@ {
                    Some(v@)
                } else {
                    sv_get(old(self).model(), q)
                },
    {
        let ghost m0 = self.model();
        let ghost gk = k@;
        let ghost gv = v@;
        let idx = self.find(k.as_str());
        match idx {
            Some(i) => {
                let ghost m0v = self.entries@;
                self.entries[i] = (k, v);
                proof {
                    assert(self.entries@.len() == m0v.len());
                    assert forall|j: int|
                        0 <= j < m0v.len() && j != i as int implies self.entries@[j]
                        == m0v[j] by {}
                    assert(self.model().len() == m0.len());
                    assert(self.model()[i as int] == (gk, gv));
                    assert forall|j: int|
                        0 <= j < m0.len() && j != i as int implies self.model()[j] == m0[j] by {
                        assert(self.entries@[j] == m0v[j]);
                    }
                    assert forall|q: Seq<char>| #[trigger]
                        sv_get(self.model(), q) == if q == gk {
                            Some(gv)
                        } else {
                            sv_get(m0, q)
                        } by {
                        lemma_sv_update_first(m0, self.model(), i as int, gk, gv, q);
                    }
                    lemma_sv_set_at(m0, i as int, gk, gv);
                    assert(self.model() =~= m0.update(i as int, (gk, gv)));
                }
            },
            None => {
                self.entries.push((k, v));
                proof {
                    assert(self.model() =~= m0.push((gk, gv)));
                    lemma_sv_get_first(m0, gk);
                    assert(sv_get(m0, gk) is None);
                    lemma_sv_set_absent(m0, gk, gv);
                    assert forall|q: Seq<char>| #[trigger]
                        sv_get(self.model(), q) == if q == gk {
                            Some(gv)
                        } else {
                            sv_get(m0, q)
                        } by {
                        lemma_sv_push_other(m0, (gk, gv), q);
                    }
                }
            },
        }
    }

    /// Bind every pair of `other`, later pairs overriding earlier ones.
    pub fn extend_from(&mut self, other: &StrMap)
        ensures
            final(self).model() == sv_extend_s(old(self).model(), other.model()),
            forall|q: Seq<char>| #[trigger]
                sv_get(final(self).model(), q) == match sv_get_last(other.model(), q) {
                    Some(v) => Some(v),
                    None => sv_get(old(self).model(), q),
                },
    {
        let ghost m0 = self.model();
        let mut i: usize = 0;
        proof {
            assert(other.model().take(0) =~= Seq::<(Seq<char>, Seq<char>)>::empty());
        }
        while i < other.entries.len()
            invariant
                i <= other.entries@.len(),
                other.model().len() == other.entries@.len(),
                self.model() == sv_extend_s(m0, other.model().take(i as int)),
                forall|q: Seq<char>| #[trigger]
                    sv_get(self.model(), q) == match sv_get_last(
                        other.model().take(i as int),
                        q,
                    ) {
                        Some(v) => Some(v),
                        None => sv_get(m0, q),
                    },
            decreases other.entries@.len() - i,
        {
            let ghost sm0 = self.model();
            let kk = other.entries[i].0.clone();
            let vv = other.entries[i].1.clone();
            self.set(kk, vv);
            proof {
                let t = other.model().take(i as int + 1);
                assert(t.drop_last() =~= other.model().take(i as int));
                assert(t.last() == other.model()[i as int]);
                lemma_sv_extend_push(m0, other.model().take(i as int), other.model()[i as int]);
                assert(other.model().take(i as int).push(other.model()[i as int]) =~= t);
            }
            i += 1;
        }
        proof {
            assert(other.model().take(other.model().len() as int) =~= other.model());
        }
    }

    /// An identical copy.
    pub fn duplicate(&self) -> (r: StrMap)
        ensures
            r.model() == self.model(),
    {
        let mut entries: Vec<(String, String)> = Vec::new();
        let mut i: usize = 0;
        proof {
            assert(entries.deep_view() =~= self.model().take(0));
        }
        while i < self.entries.len()
            invariant
                i <= self.entries@.len(),
                self.model().len() == self.entries@.len(),
                entries.deep_view() == self.model().take(i as int),
            decreases self.entries@.len() - i,
        {
            let ghost e0 = entries.deep_view();
            entries.push((self.entries[i].0.clone(), self.entries[i].1.clone()));
            proof {
                assert(entries.deep_view() =~= e0.push(self.model()[i as int]));
                assert(self.model().take(i as int + 1).drop_last() =~= self.model().take(
                    i as int,
                ));
                assert(entries.deep_view() =~= self.model().take(i as int + 1));
            }
            i += 1;
        }
        proof {
            assert(self.model().take(self.model().len() as int) =~= self.model());
        }
        StrMap { entries }
    }

    /// Bind every pair of the list, in order, later pairs overriding.
    pub fn extend_pairs(&mut self, pairs: &Vec<(String, String)>)
        ensures
            final(self).model() == sv_extend_s(old(self).model(), pairs.deep_view()),
    {
        let ghost m0 = self.model();
        let mut i: usize = 0;
        proof {
            assert(pairs.deep_view().take(0) =~= Seq::<(Seq<char>, Seq<char>)>::empty());
        }
        while i < pairs.len()
            invariant
                i <= pairs@.len(),
                pairs.deep_view().len() == pairs@.len(),
                self.model() == sv_extend_s(m0, pairs.deep_view().take(i as int)),
            decreases pairs@.len() - i,
        {
            let kk = pairs[i].0.clone();
            let vv = pairs[i].1.clone();
            self.set(kk, vv);
            proof {
                let t = pairs.deep_view().take(i as int + 1);
                assert(t.drop_last() =~= pairs.deep_view().take(i as int));
                assert(t.last() == pairs.deep_view()[i as int]);
                lemma_sv_extend_push(
                    m0,
                    pairs.deep_view().take(i as int),
                    pairs.deep_view()[i as int],
                );
                assert(pairs.deep_view().take(i as int).push(pairs.deep_view()[i as int]) =~= t);
            }
            i += 1;
        }
        proof {
            assert(pairs.deep_view().take(pairs.deep_view().len() as int) =~= pairs.deep_view());
        }
    }

    /// Number of bindings.
    pub fn len(&self) -> (r: usize)
        ensures
            r == self.model().len(),
    {
        self.entries.len()
    }

    /// Whether no binding exists.
    pub fn is_empty(&self) -> (r: bool)
        ensures
            r == (self.model().len() == 0),
    {
        self.entries.len() == 0
    }
}

/// Looking a key up in `pairs.push(e)`, single-valued form.
proof fn lemma_sv_push_other(
    pairs: Seq<(Seq<char>, Seq<char>)>,
    e: (Seq<char>, Seq<char>),
    q: Seq<char>,
)
    ensures
        sv_get(pairs.push(e), q) == if sv_get(pairs, q) is Some {
            sv_get(pairs, q)
        } else if e.0 == q {
            Some(e.1)
        } else {
            None::<Seq<char>>
        },
    decreases pairs.len(),
{
    if pairs.len() == 0 {
        assert(pairs.push(e).first() == e);
        assert(pairs.push(e).drop_first() =~= Seq::<(Seq<char>, Seq<char>)>::empty());
        assert(sv_get(pairs, q) is None);
        if e.0 == q {
            assert(sv_get(pairs.push(e), q) == Some(e.1));
        } else {
            assert(sv_get(pairs.push(e), q) == sv_get(pairs.push(e).drop_first(), q));
        }
    } else {
        assert(pairs.push(e).first() == pairs.first());
        assert(pairs.push(e).drop_first() =~= pairs.drop_first().push(e));
        lemma_sv_push_other(pairs.drop_first(), e, q);
        if pairs.first().0 == q {
            assert(sv_get(pairs.push(e), q) == Some(pairs.first().1));
            assert(sv_get(pairs, q) == Some(pairs.first().1));
        } else {
            assert(sv_get(pairs.push(e), q) == sv_get(pairs.drop_first().push(e), q));
            assert(sv_get(pairs, q) == sv_get(pairs.drop_first(), q));
        }
    }
}

/// `sv_get` answers with the first matching entry.
proof fn lemma_sv_get_first(pairs: Seq<(Seq<char>, Seq<char>)>, k: Seq<char>)
    ensures
        forall|i: int|
            0 <= i < pairs.len() && pairs[i].0 == k && (forall|j: int|
                0 <= j < i ==> pairs[j].0 != k) ==> #[trigger] sv_get(pairs, k) == Some(pairs[i].1),
        (forall|j: int| 0 <= j < pairs.len() ==> pairs[j].0 != k) ==> sv_get(pairs, k) is None,
    decreases pairs.len(),
{
    if pairs.len() > 0 {
        lemma_sv_get_first(pairs.drop_first(), k);
        assert forall|i: int|
            0 <= i < pairs.len() && pairs[i].0 == k && (forall|j: int|
                0 <= j < i ==> pairs[j].0 != k) implies #[trigger] sv_get(pairs, k) == Some(
            pairs[i].1,
        ) by {
            if i > 0 {
                assert(pairs.first().0 != k);
                assert(pairs.drop_first()[i - 1] == pairs[i]);
                assert forall|j: int| 0 <= j < i - 1 implies pairs.drop_first()[j].0 != k by {
                    assert(pairs.drop_first()[j] == pairs[j + 1]);
                }
            }
        }
    }
}

/// Updating the first `k` entry, single-valued form.
proof fn lemma_sv_update_first(
    m0: Seq<(Seq<char>, Seq<char>)>,
    m1: Seq<(Seq<char>, Seq<char>)>,
    i: int,
    k: Seq<char>,
    v: Seq<char>,
    q: Seq<char>,
)
    requires
        0 <= i < m0.len(),
        m1.len() == m0.len(),
        m0[i].0 == k,
        forall|j: int| 0 <= j < i ==> m0[j].0 != k,
        m1[i] == (k, v),
        forall|j: int| 0 <= j < m0.len() && j != i ==> m1[j] == m0[j],
    ensures
        sv_get(m1, q) == if q == k {
            Some(v)
        } else {
            sv_get(m0, q)
        },
    decreases m0.len(),
{
    if i == 0 {
        if q == k {
        } else {
            assert(m1.first().0 == k);
            assert(m1.drop_first() =~= m0.drop_first());
        }
    } else {
        assert(m1.first() == m0.first());
        if m0.first().0 == q {
        } else {
            lemma_sv_update_first(m0.drop_first(), m1.drop_first(), i - 1, k, v, q);
            assert(m1.drop_first()[i - 1] == (k, v));
            assert forall|j: int| 0 <= j < m0.drop_first().len() && j != i - 1 implies m1
                .drop_first()[j] == m0.drop_first()[j] by {
                assert(m1.drop_first()[j] == m1[j + 1]);
                assert(m0.drop_first()[j] == m0[j + 1]);
            }
        }
    }
}

/// The list after binding `k` to exactly `[v]`: the first `k` entry is
/// replaced in place, or a new entry is appended.
pub open spec fn mm_set_s(
    pairs: Seq<(Seq<char>, Seq<Seq<char>>)>,
    k: Seq<char>,
    v: Seq<char>,
) -> Seq<(Seq<char>, Seq<Seq<char>>)>
    decreases pairs.len(),
{
    if pairs.len() == 0 {
        seq![(k, seq![v])]
    } else if pairs.first().0 == k {
        seq![(k, seq![v])] + pairs.drop_first()
    } else {
        seq![pairs.first()] + mm_set_s(pairs.drop_first(), k, v)
    }
}

/// The list after appending `v` to the values of `k`.
pub open spec fn mm_add_s(
    pairs: Seq<(Seq<char>, Seq<Seq<char>>)>,
    k: Seq<char>,
    v: Seq<char>,
) -> Seq<(Seq<char>, Seq<Seq<char>>)>
    decreases pairs.len(),
{
    if pairs.len() == 0 {
        seq![(k, seq![v])]
    } else if pairs.first().0 == k {
        seq![(k, pairs.first().1.push(v))] + pairs.drop_first()
    } else {
        seq![pairs.first()] + mm_add_s(pairs.drop_first(), k, v)
    }
}

/// The single-valued list after binding `k` to `v`.
pub open spec fn sv_set_s(
    pairs: Seq<(Seq<char>, Seq<char>)>,
    k: Seq<char>,
    v: Seq<char>,
) -> Seq<(Seq<char>, Seq<char>)>
    decreases pairs.len(),
{
    if pairs.len() == 0 {
        seq![(k, v)]
    } else if pairs.first().0 == k {
        seq![(k, v)] + pairs.drop_first()
    } else {
        seq![pairs.first()] + sv_set_s(pairs.drop_first(), k, v)
    }
}

/// The single-valued list after binding every pair of `other` in turn.
pub open spec fn sv_extend_s(
    base: Seq<(Seq<char>, Seq<char>)>,
    other: Seq<(Seq<char>, Seq<char>)>,
) -> Seq<(Seq<char>, Seq<char>)>
    decreases other.len(),
{
    if other.len() == 0 {
        base
    } else {
        sv_extend_s(sv_set_s(base, other.first().0, other.first().1), other.drop_first())
    }
}

/// Replacing the first `k` entry at its position is `mm_set_s`.
proof fn lemma_mm_set_at(
    m: Seq<(Seq<char>, Seq<Seq<char>>)>,
    i: int,
    k: Seq<char>,
    v: Seq<char>,
)
    requires
        0 <= i < m.len(),
        m[i].0 == k,
        forall|j: int| 0 <= j < i ==> m[j].0 != k,
    ensures
        mm_set_s(m, k, v) == m.update(i, (k, seq![v])),
    decreases i,
{
    if i == 0 {
        assert(m.first().0 == k);
        assert(mm_set_s(m, k, v) =~= m.update(0, (k, seq![v])));
    } else {
        assert(m.first().0 != k);
        assert(m.drop_first()[i - 1] == m[i]);
        assert forall|j: int| 0 <= j < i - 1 implies m.drop_first()[j].0 != k by {
            assert(m.drop_first()[j] == m[j + 1]);
        }
        lemma_mm_set_at(m.drop_first(), i - 1, k, v);
        assert(mm_set_s(m, k, v) =~= m.update(i, (k, seq![v])));
    }
}

/// Appending a fresh key is `mm_set_s` when the key is absent.
proof fn lemma_mm_set_absent(m: Seq<(Seq<char>, Seq<Seq<char>>)>, k: Seq<char>, v: Seq<char>)
    requires
        forall|j: int| 0 <= j < m.len() ==> m[j].0 != k,
    ensures
        mm_set_s(m, k, v) == m.push((k, seq![v])),
    decreases m.len(),
{
    if m.len() == 0 {
        assert(mm_set_s(m, k, v) =~= m.push((k, seq![v])));
    } else {
        assert(m.first().0 != k);
        assert forall|j: int| 0 <= j < m.drop_first().len() implies m.drop_first()[j].0 != k by {
            assert(m.drop_first()[j] == m[j + 1]);
        }
        lemma_mm_set_absent(m.drop_first(), k, v);
        assert(mm_set_s(m, k, v) =~= m.push((k, seq![v])));
    }
}

/// Pushing onto the first `k` entry's values is `mm_add_s`.
proof fn lemma_mm_add_at(
    m: Seq<(Seq<char>, Seq<Seq<char>>)>,
    i: int,
    k: Seq<char>,
    v: Seq<char>,
)
    requires
        0 <= i < m.len(),
        m[i].0 == k,
        forall|j: int| 0 <= j < i ==> m[j].0 != k,
    ensures
        mm_add_s(m, k, v) == m.update(i, (k, m[i].1.push(v))),
    decreases i,
{
    if i == 0 {
        assert(m.first().0 == k);
        assert(mm_add_s(m, k, v) =~= m.update(0, (k, m[0].1.push(v))));
    } else {
        assert(m.first().0 != k);
        assert(m.drop_first()[i - 1] == m[i]);
        assert forall|j: int| 0 <= j < i - 1 implies m.drop_first()[j].0 != k by {
            assert(m.drop_first()[j] == m[j + 1]);
        }
        lemma_mm_add_at(m.drop_first(), i - 1, k, v);
        assert(mm_add_s(m, k, v) =~= m.update(i, (k, m[i].1.push(v))));
    }
}

/// Appending a fresh key is `mm_add_s` when the key is absent.
proof fn lemma_mm_add_absent(m: Seq<(Seq<char>, Seq<Seq<char>>)>, k: Seq<char>, v: Seq<char>)
    requires
        forall|j: int| 0 <= j < m.len() ==> m[j].0 != k,
    ensures
        mm_add_s(m, k, v) == m.push((k, seq![v])),
    decreases m.len(),
{
    if m.len() == 0 {
        assert(mm_add_s(m, k, v) =~= m.push((k, seq![v])));
    } else {
        assert(m.first().0 != k);
        assert forall|j: int| 0 <= j < m.drop_first().len() implies m.drop_first()[j].0 != k by {
            assert(m.drop_first()[j] == m[j + 1]);
        }
        lemma_mm_add_absent(m.drop_first(), k, v);
        assert(mm_add_s(m, k, v) =~= m.push((k, seq![v])));
    }
}

/// Replacing the first `k` entry at its position is `sv_set_s`.
proof fn lemma_sv_set_at(m: Seq<(Seq<char>, Seq<char>)>, i: int, k: Seq<char>, v: Seq<char>)
    requires
        0 <= i < m.len(),
        m[i].0 == k,
        forall|j: int| 0 <= j < i ==> m[j].0 != k,
    ensures
        sv_set_s(m, k, v) == m.update(i, (k, v)),
    decreases i,
{
    if i == 0 {
        assert(m.first().0 == k);
        assert(sv_set_s(m, k, v) =~= m.update(0, (k, v)));
    } else {
        assert(m.first().0 != k);
        assert(m.drop_first()[i - 1] == m[i]);
        assert forall|j: int| 0 <= j < i - 1 implies m.drop_first()[j].0 != k by {
            assert(m.drop_first()[j] == m[j + 1]);
        }
        lemma_sv_set_at(m.drop_first(), i - 1, k, v);
        assert(sv_set_s(m, k, v) =~= m.update(i, (k, v)));
    }
}

/// Appending a fresh key is `sv_set_s` when the key is absent.
proof fn lemma_sv_set_absent(m: Seq<(Seq<char>, Seq<char>)>, k: Seq<char>, v: Seq<char>)
    requires
        forall|j: int| 0 <= j < m.len() ==> m[j].0 != k,
    ensures
        sv_set_s(m, k, v) == m.push((k, v)),
    decreases m.len(),
{
    if m.len() == 0 {
        assert(sv_set_s(m, k, v) =~= m.push((k, v)));
    } else {
        assert(m.first().0 != k);
        assert forall|j: int| 0 <= j < m.drop_first().len() implies m.drop_first()[j].0 != k by {
            assert(m.drop_first()[j] == m[j + 1]);
        }
        lemma_sv_set_absent(m.drop_first(), k, v);
        assert(sv_set_s(m, k, v) =~= m.push((k, v)));
    }
}

/// Folding one more pair into an extension.
proof fn lemma_sv_extend_push(
    base: Seq<(Seq<char>, Seq<char>)>,
    other: Seq<(Seq<char>, Seq<char>)>,
    e: (Seq<char>, Seq<char>),
)
    ensures
        sv_extend_s(base, other.push(e)) == sv_set_s(sv_extend_s(base, other), e.0, e.1),
    decreases other.len(),
{
    if other.len() == 0 {
        assert(other.push(e).first() == e);
        assert(other.push(e).drop_first() =~= Seq::<(Seq<char>, Seq<char>)>::empty());
        assert(sv_extend_s(base, other.push(e)) == sv_extend_s(
            sv_set_s(base, e.0, e.1),
            other.push(e).drop_first(),
        ));
        assert(sv_extend_s(sv_set_s(base, e.0, e.1), other.push(e).drop_first()) == sv_set_s(
            base,
            e.0,
            e.1,
        ));
        assert(sv_extend_s(base, other) == base);
    } else {
        assert(other.push(e).first() == other.first());
        assert(other.push(e).drop_first() =~= other.drop_first().push(e));
        lemma_sv_extend_push(
            sv_set_s(base, other.first().0, other.first().1),
            other.drop_first(),
            e,
        );
        assert(sv_extend_s(base, other.push(e)) == sv_extend_s(
            sv_set_s(base, other.first().0, other.first().1),
            other.drop_first().push(e),
        ));
        assert(sv_extend_s(base, other) == sv_extend_s(
            sv_set_s(base, other.first().0, other.first().1),
            other.drop_first(),
        ));
    }
}

} // verus!
