//! The header mapping: names to values, order of first insertion kept,
//! later writes to the same name replacing the value.

use vstd::prelude::*;
use crate::text::str_eq;

verus! {

/// Whether no header name occurs twice.
pub open spec fn distinct_keys(hs: Seq<(Seq<char>, Seq<char>)>) -> bool {
    forall|i: int, j: int| 0 <= i < j < hs.len() ==> hs[i].0 != hs[j].0
}

/// Whether some entry has name `k`.
pub open spec fn has_key(hs: Seq<(Seq<char>, Seq<char>)>, k: Seq<char>) -> bool {
    exists|i: int| 0 <= i < hs.len() && hs[i].0 == k
}

/// The value of the first entry named `k`, if any.
pub open spec fn spec_lookup(hs: Seq<(Seq<char>, Seq<char>)>, k: Seq<char>) -> Option<
    Seq<char>,
>
    decreases hs.len(),
{
    if hs.len() == 0 {
        None
    } else if hs[0].0 == k {
        Some(hs[0].1)
    } else {
        spec_lookup(hs.skip(1), k)
    }
}

/// How many entries are named `k`.
pub open spec fn key_count(hs: Seq<(Seq<char>, Seq<char>)>, k: Seq<char>) -> nat
    decreases hs.len(),
{
    if hs.len() == 0 {
        0
    } else if hs[0].0 == k {
        1 + key_count(hs.skip(1), k)
    } else {
        key_count(hs.skip(1), k)
    }
}

/// Upsert: replaces the value of the first entry named `k`, or appends a
/// new entry when none is named `k`.
pub open spec fn spec_insert(
    hs: Seq<(Seq<char>, Seq<char>)>,
    k: Seq<char>,
    v: Seq<char>,
) -> Seq<(Seq<char>, Seq<char>)>
    decreases hs.len(),
{
    if hs.len() == 0 {
        seq![(k, v)]
    } else if hs[0].0 == k {
        seq![(k, v)] + hs.skip(1)
    } else {
        seq![hs[0]] + spec_insert(hs.skip(1), k, v)
    }
}

proof fn lemma_key_count_zero(hs: Seq<(Seq<char>, Seq<char>)>, k: Seq<char>)
    requires
        forall|j: int| 0 <= j < hs.len() ==> hs[j].0 != k,
    ensures
        key_count(hs, k) == 0,
    decreases hs.len(),
{
    if hs.len() > 0 {
        assert(forall|j: int| 0 <= j < hs.skip(1).len() ==> hs.skip(1)[j] == hs[j + 1]);
        lemma_key_count_zero(hs.skip(1), k);
    }
}

/// What an upsert does: exactly one entry named `k` remains, holding `v`;
/// every other name keeps its value; the length grows only when the name
/// was absent; and no name occurs twice afterwards.
pub proof fn lemma_spec_insert_props(hs: Seq<(Seq<char>, Seq<char>)>, k: Seq<char>, v: Seq<char>)
    requires
        distinct_keys(hs),
    ensures
        distinct_keys(spec_insert(hs, k, v)),
        spec_lookup(spec_insert(hs, k, v), k) == Some(v),
        key_count(spec_insert(hs, k, v), k) == 1,
        forall|k2: Seq<char>| k2 != k ==> spec_lookup(spec_insert(hs, k, v), k2) == spec_lookup(
            hs,
            k2,
        ),
        spec_insert(hs, k, v).len() == if has_key(hs, k) {
            hs.len()
        } else {
            hs.len() + 1
        },
        forall|j: int|
            0 <= j < spec_insert(hs, k, v).len() ==> spec_insert(hs, k, v)[j].0 == k || has_key(
                hs,
                spec_insert(hs, k, v)[j].0,
            ),
    decreases hs.len(),
{
    let r = spec_insert(hs, k, v);
    if hs.len() == 0 {
        assert(r == seq![(k, v)]);
        assert(r.skip(1) =~= Seq::<(Seq<char>, Seq<char>)>::empty());
        assert(r[0] == (k, v));
        assert(key_count(r.skip(1), k) == 0);
        assert(key_count(r, k) == 1);
        assert forall|k2: Seq<char>| k2 != k implies spec_lookup(r, k2) == spec_lookup(hs, k2) by {
            assert(spec_lookup(r.skip(1), k2) is None);
            assert(spec_lookup(r, k2) == spec_lookup(r.skip(1), k2));
        }
    } else if hs[0].0 == k {
        let t = hs.skip(1);
        assert(forall|j: int| 0 <= j < t.len() ==> t[j] == hs[j + 1]);
        assert(r == seq![(k, v)] + t);
        assert(r.skip(1) =~= t);
        assert(r[0] == (k, v));
        assert(forall|j: int| 0 <= j < t.len() ==> t[j].0 != k);
        lemma_key_count_zero(t, k);
        assert(key_count(r, k) == 1 + key_count(t, k));
        assert(key_count(r, k) == 1);
        assert(spec_lookup(r, k) == Some(v));
        assert forall|k2: Seq<char>| k2 != k implies spec_lookup(r, k2) == spec_lookup(hs, k2) by {
            assert(spec_lookup(r, k2) == spec_lookup(t, k2));
            assert(spec_lookup(hs, k2) == spec_lookup(t, k2));
        }
        assert forall|j: int| 0 <= j < r.len() implies r[j].0 == k || has_key(hs, r[j].0) by {
            if j > 0 {
                assert(r[j] == hs[j]);
            }
        }
    } else {
        let t = hs.skip(1);
        assert(forall|j: int| 0 <= j < t.len() ==> t[j] == hs[j + 1]);
        assert(distinct_keys(t));
        lemma_spec_insert_props(t, k, v);
        let rt = spec_insert(t, k, v);
        assert(r == seq![hs[0]] + rt);
        assert(r.skip(1) =~= rt);
        assert(r[0] == hs[0]);
        assert(spec_lookup(r, k) == spec_lookup(rt, k));
        assert(key_count(r, k) == key_count(rt, k));
        assert forall|k2: Seq<char>| k2 != k implies spec_lookup(r, k2) == spec_lookup(hs, k2) by {
            if hs[0].0 == k2 {
                assert(spec_lookup(r, k2) == Some(hs[0].1));
                assert(spec_lookup(hs, k2) == Some(hs[0].1));
            } else {
                assert(spec_lookup(r, k2) == spec_lookup(rt, k2));
                assert(spec_lookup(hs, k2) == spec_lookup(t, k2));
            }
        }
        // the head's name collides with nothing in the rewritten tail
        assert forall|j: int| 1 <= j < r.len() implies r[j].0 != hs[0].0 by {
            assert(r[j] == rt[j - 1]);
            if rt[j - 1].0 == k {
            } else {
                assert(has_key(t, rt[j - 1].0));
                let w = choose|w: int| 0 <= w < t.len() && t[w].0 == rt[j - 1].0;
                assert(hs[w + 1].0 == rt[j - 1].0);
            }
        }
        assert(distinct_keys(r)) by {
            assert forall|i: int, j: int| 0 <= i < j < r.len() implies r[i].0 != r[j].0 by {
                if i > 0 {
                    assert(r[i] == rt[i - 1] && r[j] == rt[j - 1]);
                }
            }
        }
        if has_key(hs, k) {
            let i = choose|i: int| 0 <= i < hs.len() && hs[i].0 == k;
            assert(t[i - 1].0 == k);
            assert(has_key(t, k));
        }
        if has_key(t, k) {
            let i = choose|i: int| 0 <= i < t.len() && t[i].0 == k;
            assert(hs[i + 1].0 == k);
            assert(has_key(hs, k));
        }
        assert forall|j: int| 0 <= j < r.len() implies r[j].0 == k || has_key(hs, r[j].0) by {
            if j == 0 {
                assert(hs[0].0 == r[0].0);
            } else {
                assert(r[j] == rt[j - 1]);
                if rt[j - 1].0 != k {
                    let w = choose|w: int| 0 <= w < t.len() && t[w].0 == rt[j - 1].0;
                    assert(hs[w + 1].0 == rt[j - 1].0);
                }
            }
        }
    }
}

/// Upserting a name twice leaves exactly one entry for it, holding the
/// second value; entries under other names keep their values.
pub proof fn lemma_upsert_twice(
    hs: Seq<(Seq<char>, Seq<char>)>,
    k: Seq<char>,
    v1: Seq<char>,
    v2: Seq<char>,
)
    requires
        distinct_keys(hs),
    ensures
        key_count(spec_insert(spec_insert(hs, k, v1), k, v2), k) == 1,
        spec_lookup(spec_insert(spec_insert(hs, k, v1), k, v2), k) == Some(v2),
        forall|k2: Seq<char>| k2 != k ==> spec_lookup(spec_insert(spec_insert(hs, k, v1), k, v2), k2)
            == spec_lookup(hs, k2),
{
    lemma_spec_insert_props(hs, k, v1);
    lemma_spec_insert_props(spec_insert(hs, k, v1), k, v2);
}

proof fn lemma_spec_insert_found(
    hs: Seq<(Seq<char>, Seq<char>)>,
    k: Seq<char>,
    v: Seq<char>,
    i: int,
)
    requires
        0 <= i < hs.len(),
        hs[i].0 == k,
        forall|j: int| 0 <= j < i ==> hs[j].0 != k,
    ensures
        spec_insert(hs, k, v) == hs.update(i, (k, v)),
    decreases i,
{
    if i == 0 {
        assert(seq![(k, v)] + hs.skip(1) =~= hs.update(0, (k, v)));
    } else {
        let t = hs.skip(1);
        assert(forall|j: int| 0 <= j < t.len() ==> t[j] == hs[j + 1]);
        lemma_spec_insert_found(t, k, v, i - 1);
        assert(seq![hs[0]] + t.update(i - 1, (k, v)) =~= hs.update(i, (k, v)));
    }
}

proof fn lemma_spec_insert_missing(hs: Seq<(Seq<char>, Seq<char>)>, k: Seq<char>, v: Seq<char>)
    requires
        forall|j: int| 0 <= j < hs.len() ==> hs[j].0 != k,
    ensures
        spec_insert(hs, k, v) == hs.push((k, v)),
    decreases hs.len(),
{
    if hs.len() == 0 {
        assert(seq![(k, v)] =~= hs.push((k, v)));
    } else {
        let t = hs.skip(1);
        assert(forall|j: int| 0 <= j < t.len() ==> t[j] == hs[j + 1]);
        lemma_spec_insert_missing(t, k, v);
        assert(seq![hs[0]] + t.push((k, v)) =~= hs.push((k, v)));
    }
}

proof fn lemma_lookup_skip(hs: Seq<(Seq<char>, Seq<char>)>, k: Seq<char>, i: int)
    requires
        0 <= i <= hs.len(),
        forall|j: int| 0 <= j < i ==> hs[j].0 != k,
    ensures
        spec_lookup(hs, k) == spec_lookup(hs.skip(i), k),
    decreases i,
{
    if i > 0 {
        let t = hs.skip(1);
        assert(forall|j: int| 0 <= j < t.len() ==> t[j] == hs[j + 1]);
        lemma_lookup_skip(t, k, i - 1);
        assert(t.skip(i - 1) =~= hs.skip(i));
    } else {
        assert(hs.skip(0) =~= hs);
    }
}

/// A header mapping. Entries keep the order in which their names first
/// arrived; writing an existing name replaces its value in place.
pub struct Headers {
    entries: Vec<(String, String)>,
}

impl View for Headers {
    type V = Seq<(Seq<char>, Seq<char>)>;

    closed spec fn view(&self) -> Seq<(Seq<char>, Seq<char>)> {
        self.entries.deep_view()
    }
}

impl Headers {
    /// Every name occurs at most once.
    pub open spec fn wf(self) -> bool {
        distinct_keys(self@)
    }

    pub fn new() -> (r: Self)
        ensures
            r@ == Seq::<(Seq<char>, Seq<char>)>::empty(),
            r.wf(),
    {
        let r = Headers { entries: Vec::new() };
        proof {
            assert(r@ =~= Seq::<(Seq<char>, Seq<char>)>::empty());
        }
        r
    }

    pub fn len(&self) -> (n: usize)
        ensures
            n == self@.len(),
    {
        self.entries.len()
    }

    pub fn name_at(&self, i: usize) -> (r: &String)
        requires
            i < self@.len(),
        ensures
            r@ == self@[i as int].0,
    {
        &self.entries[i].0
    }

    pub fn value_at(&self, i: usize) -> (r: &String)
        requires
            i < self@.len(),
        ensures
            r@ == self@[i as int].1,
    {
        &self.entries[i].1
    }

    fn index_of(&self, name: &str) -> (r: Option<usize>)
        ensures
            match r {
                Some(i) => i < self@.len() && self@[i as int].0 == name@ && (forall|j: int|
                    0 <= j < i ==> self@[j].0 != name@),
                None => forall|j: int| 0 <= j < self@.len() ==> self@[j].0 != name@,
            },
    {
        let n: usize = self.entries.len();
        let mut i: usize = 0;
        while i < n
            invariant
                0 <= i <= n,
                n == self@.len(),
                n == self.entries@.len(),
                forall|j: int| 0 <= j < i ==> self@[j].0 != name@,
            decreases n - i,
        {
            if str_eq(self.entries[i].0.as_str(), name) {
                return Some(i);
            }
            i += 1;
        }
        None
    }

    /// The value stored under `name`, if any.
    pub fn get(&self, name: &str) -> (r: Option<&String>)
        ensures
            match r {
                Some(v) => spec_lookup(self@, name@) == Some(v@),
                None => spec_lookup(self@, name@) is None,
            },
    {
        match self.index_of(name) {
            Some(i) => {
                proof {
                    lemma_lookup_skip(self@, name@, i as int);
                    assert(self@.skip(i as int)[0] == self@[i as int]);
                }
                Some(&self.entries[i].1)
            },
            None => {
                proof {
                    lemma_lookup_skip(self@, name@, self@.len() as int);
                    assert(self@.skip(self@.len() as int) =~= Seq::<(Seq<char>, Seq<char>)>::empty());
                }
                None
            },
        }
    }

    /// Upserts `name` to `value`: the later of two writes to one name wins.
    pub fn insert(&mut self, name: String, value: String)
        requires
            old(self).wf(),
        ensures
            final(self)@ == spec_insert(old(self)@, name@, value@),
            final(self).wf(),
    {
        proof {
            lemma_spec_insert_props(old(self)@, name@, value@);
        }
        match self.index_of(name.as_str()) {
            Some(i) => {
                proof {
                    lemma_spec_insert_found(self@, name@, value@, i as int);
                }
                self.entries.remove(i);
                self.entries.insert(i, (name, value));
                proof {
                    assert(self@ =~= spec_insert(old(self)@, name@, value@));
                }
            },
            None => {
                proof {
                    lemma_spec_insert_missing(self@, name@, value@);
                }
                self.entries.push((name, value));
                proof {
                    assert(self@ =~= spec_insert(old(self)@, name@, value@));
                }
            },
        }
    }
}

} // verus!
