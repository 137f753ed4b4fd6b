//! A small verified string-to-string map, used for contract code and
//! contract state.

use vstd::prelude::*;
use crate::strutil::str_eq;

verus! {

/// The views of a sequence of key/value entries, in order.
pub open spec fn spec_kv_views(s: Seq<(String, String)>) -> Seq<(Seq<char>, Seq<char>)> {
    Seq::new(s.len(), |i: int| (s[i].0@, s[i].1@))
}

/// The value recorded under `key`: the first matching entry, if any.
pub open spec fn spec_kv_get(m: Seq<(Seq<char>, Seq<char>)>, key: Seq<char>) -> Option<Seq<char>>
    decreases m.len(),
{
    if m.len() == 0 {
        None
    } else if m[0].0 == key {
        Some(m[0].1)
    } else {
        spec_kv_get(m.drop_first(), key)
    }
}

/// Each key appears at most once.
pub open spec fn spec_kv_wf(m: Seq<(Seq<char>, Seq<char>)>) -> bool {
    forall|i: int, j: int| 0 <= i < m.len() && 0 <= j < m.len() && i != j ==> m[i].0 != m[j].0
}

/// A string-keyed map of strings.
pub struct StrMap {
    entries: Vec<(String, String)>,
}

impl View for StrMap {
    type V = Seq<(Seq<char>, Seq<char>)>;

    closed spec fn view(&self) -> Seq<(Seq<char>, Seq<char>)> {
        spec_kv_views(self.entries@)
    }
}

impl StrMap {
    /// Each key appears at most once.
    pub open spec fn wf(&self) -> bool {
        spec_kv_wf(self@)
    }

    /// An empty map.
    pub fn new() -> (m: StrMap)
        ensures
            m@ =~= Seq::<(Seq<char>, Seq<char>)>::empty(),
            m.wf(),
    {
        StrMap { entries: Vec::new() }
    }

    /// The index of the entry for `key`, if one exists.
    fn position_of(&self, key: &str) -> (r: Option<usize>)
        ensures
            match r {
                Some(i) => i < self@.len() && self@[i as int].0 == key@ && forall|j: int|
                    0 <= j < i ==> self@[j].0 != key@,
                None => forall|j: int| 0 <= j < self@.len() ==> self@[j].0 != key@,
            },
    {
        let n: usize = self.entries.len();
        let mut i: usize = 0;
        while i < n
            invariant
                n == self@.len(),
                n == self.entries@.len(),
                i <= n,
                forall|j: int| 0 <= j < i ==> self@[j].0 != key@,
            decreases n - i,
        {
            proof {
                assert(spec_kv_views(self.entries@)[i as int] == (
                    self.entries@[i as int].0@,
                    self.entries@[i as int].1@,
                ));
            }
            if str_eq(self.entries[i].0.as_str(), key) {
                return Some(i);
            }
            i = i + 1;
        }
        None
    }

    /// The value recorded under `key`, if any.
    pub fn get(&self, key: &str) -> (r: Option<&String>)
        ensures
            match r {
                Some(v) => spec_kv_get(self@, key@) == Some(v@),
                None => spec_kv_get(self@, key@) is None,
            },
    {
        match self.position_of(key) {
            Some(i) => {
                proof {
                    lemma_kv_get_at(self@, key@, i as int);
                    assert(spec_kv_views(self.entries@)[i as int] == (
                        self.entries@[i as int].0@,
                        self.entries@[i as int].1@,
                    ));
                }
                Some(&self.entries[i].1)
            },
            None => {
                proof {
                    lemma_kv_get_missing(self@, key@);
                }
                None
            },
        }
    }

    /// Records `value` under `key`, replacing any previous value.
    pub fn set(&mut self, key: String, value: String)
        requires
            old(self).wf(),
        ensures
            final(self).wf(),
            spec_kv_get(final(self)@, key@) == Some(value@),
            forall|k: Seq<char>|
                k != key@ ==> spec_kv_get(final(self)@, k) == spec_kv_get(old(self)@, k),
    {
        match self.position_of(key.as_str()) {
            Some(i) => {
                proof {
                    assert(spec_kv_views(self.entries@)[i as int] == (
                        self.entries@[i as int].0@,
                        self.entries@[i as int].1@,
                    ));
                }
                self.entries.set(i, (key, value));
                proof {
                    let e = (self.entries@[i as int].0@, self.entries@[i as int].1@);
                    assert(self@ =~= old(self)@.update(i as int, e));
                    assert forall|x: int| 0 <= x < self@.len() implies self@[x].0 == old(
                        self,
                    )@[x].0 by {
                    }
                    lemma_kv_get_at(self@, self@[i as int].0, i as int);
                    assert forall|k: Seq<char>|
                        k != self@[i as int].0 implies spec_kv_get(self@, k) == spec_kv_get(
                        old(self)@,
                        k,
                    ) by {
                        lemma_kv_get_update_other(old(self)@, i as int, e, k);
                    }
                }
            },
            None => {
                self.entries.push((key, value));
                proof {
                    let e = (
                        self.entries@[self.entries@.len() - 1].0@,
                        self.entries@[self.entries@.len() - 1].1@,
                    );
                    assert(self@ =~= old(self)@.push(e));
                    let m2 = self@;
                    let i = m2.len() - 1;
                    lemma_kv_get_at(m2, m2[i].0, i);
                    assert forall|k: Seq<char>|
                        k != m2[i].0 implies spec_kv_get(m2, k) == spec_kv_get(old(self)@, k) by {
                        lemma_kv_get_push_other(old(self)@, e, k);
                    }
                }
            },
        }
    }
}

/// A first key match at `i` fixes the recorded value.
proof fn lemma_kv_get_at(m: Seq<(Seq<char>, Seq<char>)>, key: Seq<char>, i: int)
    requires
        0 <= i < m.len(),
        m[i].0 == key,
        forall|j: int| 0 <= j < i ==> m[j].0 != key,
    ensures
        spec_kv_get(m, key) == Some(m[i].1),
    decreases i,
{
    if i > 0 {
        lemma_kv_get_at(m.drop_first(), key, i - 1);
    }
}

/// No key match means no value.
proof fn lemma_kv_get_missing(m: Seq<(Seq<char>, Seq<char>)>, key: Seq<char>)
    requires
        forall|j: int| 0 <= j < m.len() ==> m[j].0 != key,
    ensures
        spec_kv_get(m, key) is None,
    decreases m.len(),
{
    if m.len() > 0 {
        lemma_kv_get_missing(m.drop_first(), key);
    }
}

/// Replacing an entry's value leaves every other key's lookup alone.
proof fn lemma_kv_get_update_other(
    m: Seq<(Seq<char>, Seq<char>)>,
    i: int,
    e: (Seq<char>, Seq<char>),
    k: Seq<char>,
)
    requires
        0 <= i < m.len(),
        e.0 == m[i].0,
        k != e.0,
    ensures
        spec_kv_get(m.update(i, e), k) == spec_kv_get(m, k),
    decreases i,
{
    let m2 = m.update(i, e);
    if i == 0 {
        assert(m2.drop_first() =~= m.drop_first());
    } else {
        assert(m2[0] == m[0]);
        assert(m2.drop_first() =~= m.drop_first().update(i - 1, e));
        lemma_kv_get_update_other(m.drop_first(), i - 1, e, k);
    }
}

/// Adding an entry leaves every other key's lookup alone.
proof fn lemma_kv_get_push_other(
    m: Seq<(Seq<char>, Seq<char>)>,
    e: (Seq<char>, Seq<char>),
    k: Seq<char>,
)
    requires
        k != e.0,
    ensures
        spec_kv_get(m.push(e), k) == spec_kv_get(m, k),
    decreases m.len(),
{
    let m2 = m.push(e);
    if m.len() == 0 {
        assert(m2.drop_first() =~= Seq::<(Seq<char>, Seq<char>)>::empty());
    } else {
        assert(m2[0] == m[0]);
        assert(m2.drop_first() =~= m.drop_first().push(e));
        lemma_kv_get_push_other(m.drop_first(), e, k);
    }
}

} // verus!
