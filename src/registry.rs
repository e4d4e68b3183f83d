use vstd::prelude::*;

verus! {

/// Details recorded under `id`; the last matching entry wins.
pub open spec fn entry_of<D>(s: Seq<(u64, D)>, id: u64) -> Option<D>
    decreases s.len(),
{
    if s.len() == 0 {
        None
    } else if s.last().0 == id {
        Some(s.last().1)
    } else {
        entry_of(s.drop_last(), id)
    }
}

pub open spec fn ids_unique<D>(s: Seq<(u64, D)>) -> bool {
    forall|i: int, j: int| 0 <= i < j < s.len() ==> s[i].0 != s[j].0
}

proof fn lemma_entry_found<D>(s: Seq<(u64, D)>, k: int)
    requires
        ids_unique(s),
        0 <= k < s.len(),
    ensures
        entry_of(s, s[k].0) == Some(s[k].1),
    decreases s.len(),
{
    if k < s.len() - 1 {
        let t = s.drop_last();
        assert(t[k] == s[k]);
        lemma_entry_found(t, k);
    }
}

proof fn lemma_entry_absent<D>(s: Seq<(u64, D)>, id: u64)
    requires
        forall|i: int| 0 <= i < s.len() ==> #[trigger] s[i].0 != id,
    ensures
        entry_of(s, id) == None::<D>,
    decreases s.len(),
{
    if s.len() > 0 {
        let t = s.drop_last();
        assert forall|i: int| 0 <= i < t.len() implies #[trigger] t[i].0 != id by {
            assert(t[i] == s[i]);
        }
        lemma_entry_absent(t, id);
    }
}

/// After rewriting the details at one position, every other id reads as before.
proof fn lemma_entry_update<D>(s: Seq<(u64, D)>, k: int, d: D)
    requires
        ids_unique(s),
        0 <= k < s.len(),
    ensures
        ids_unique(s.update(k, (s[k].0, d))),
        entry_of(s.update(k, (s[k].0, d)), s[k].0) == Some(d),
        forall|id: u64| id != s[k].0 ==> #[trigger] entry_of(s.update(k, (s[k].0, d)), id)
            == entry_of(s, id),
{
    let u = s.update(k, (s[k].0, d));
    assert forall|i: int, j: int| 0 <= i < j < u.len() implies u[i].0 != u[j].0 by {
        assert(u[i].0 == s[i].0 && u[j].0 == s[j].0);
    }
    lemma_entry_found(u, k);
    assert forall|id: u64| id != s[k].0 implies #[trigger] entry_of(u, id) == entry_of(s, id) by {
        if exists|i: int| 0 <= i < s.len() && s[i].0 == id {
            let i = choose|i: int| 0 <= i < s.len() && s[i].0 == id;
            lemma_entry_found(s, i);
            lemma_entry_found(u, i);
        } else {
            lemma_entry_absent(s, id);
            assert forall|i: int| 0 <= i < u.len() implies #[trigger] u[i].0 != id by {
                assert(u[i].0 == s[i].0);
            }
            lemma_entry_absent(u, id);
        }
    }
}

/// Details of every asset, keyed by its id.
pub struct Registry<D> {
    entries: Vec<(u64, D)>,
}

impl<D> Registry<D> {
    /// The details recorded under `id`, if any.
    pub closed spec fn details(&self, id: u64) -> Option<D> {
        entry_of(self.entries@, id)
    }

    pub closed spec fn wf(&self) -> bool {
        ids_unique(self.entries@)
    }

    /// A registry without any asset.
    pub fn new() -> (r: Self)
        ensures
            r.wf(),
            forall|id: u64| #[trigger] r.details(id) == None::<D>,
    {
        Registry { entries: Vec::new() }
    }

    fn find(&self, id: u64) -> (r: Option<usize>)
        ensures
            match r {
                Some(k) => k < self.entries@.len() && self.entries@[k as int].0 == id,
                None => forall|i: int| 0 <= i < self.entries@.len() ==> #[trigger] self.entries@[i].0 != id,
            },
    {
        let mut i: usize = 0;
        while i < self.entries.len()
            invariant
                i <= self.entries@.len(),
                forall|j: int| 0 <= j < i ==> #[trigger] self.entries@[j].0 != id,
            decreases self.entries@.len() - i,
        {
            if self.entries[i].0 == id {
                return Some(i);
            }
            i = i + 1;
        }
        None
    }

    /// The details recorded under `id`, if any.
    pub fn get(&self, id: u64) -> (r: Option<&D>)
        requires
            self.wf(),
        ensures
            r.is_some() == self.details(id).is_some(),
            r.is_some() ==> *r.unwrap() == self.details(id).unwrap(),
    {
        match self.find(id) {
            Some(k) => {
                proof {
                    lemma_entry_found(self.entries@, k as int);
                }
                Some(&self.entries[k].1)
            },
            None => {
                proof {
                    lemma_entry_absent(self.entries@, id);
                }
                None
            },
        }
    }

    /// Records `d` under `id`, replacing what was there.
    pub(crate) fn insert(&mut self, id: u64, d: D)
        requires
            old(self).wf(),
        ensures
            final(self).wf(),
            final(self).details(id) == Some(d),
            forall|other: u64| other != id ==> #[trigger] final(self).details(other) == old(
                self,
            ).details(other),
    {
        let ghost s = self.entries@;
        match self.find(id) {
            Some(k) => {
                proof {
                    lemma_entry_update(s, k as int, d);
                }
                self.entries.set(k, (id, d));
                proof {
                    assert(self.entries@ =~= s.update(k as int, (id, d)));
                }
            },
            None => {
                self.entries.push((id, d));
                proof {
                    assert(self.entries@.drop_last() =~= s);
                }
            },
        }
    }

    /// Removes the details recorded under `id` and hands them back.
    pub(crate) fn take(&mut self, id: u64) -> (r: Option<D>)
        requires
            old(self).wf(),
        ensures
            final(self).wf(),
            r == old(self).details(id),
            final(self).details(id) == None::<D>,
            forall|other: u64| other != id ==> #[trigger] final(self).details(other) == old(
                self,
            ).details(other),
    {
        let ghost s = self.entries@;
        match self.find(id) {
            Some(k) => {
                proof {
                    lemma_entry_found(s, k as int);
                    lemma_entry_remove(s, k as int);
                }
                let e = self.entries.remove(k);
                Some(e.1)
            },
            None => {
                proof {
                    lemma_entry_absent(s, id);
                }
                None
            },
        }
    }
}

/// Removing the entry at one position forgets its id and keeps every other.
proof fn lemma_entry_remove<D>(s: Seq<(u64, D)>, k: int)
    requires
        ids_unique(s),
        0 <= k < s.len(),
    ensures
        ids_unique(s.remove(k)),
        entry_of(s.remove(k), s[k].0) == None::<D>,
        forall|id: u64| id != s[k].0 ==> #[trigger] entry_of(s.remove(k), id) == entry_of(s, id),
{
    let u = s.remove(k);
    assert forall|i: int| 0 <= i < u.len() implies u[i] == if i < k { s[i] } else { s[i + 1] } by {}
    assert forall|i: int, j: int| 0 <= i < j < u.len() implies u[i].0 != u[j].0 by {
        let a: int = if i < k { i } else { i + 1 };
        let b: int = if j < k { j } else { j + 1 };
        assert(u[i] == s[a] && u[j] == s[b]);
    }
    assert forall|i: int| 0 <= i < u.len() implies #[trigger] u[i].0 != s[k].0 by {
        let a: int = if i < k { i } else { i + 1 };
        assert(u[i] == s[a]);
    }
    lemma_entry_absent(u, s[k].0);
    assert forall|id: u64| id != s[k].0 implies #[trigger] entry_of(u, id) == entry_of(s, id) by {
        if exists|i: int| 0 <= i < s.len() && s[i].0 == id {
            let i = choose|i: int| 0 <= i < s.len() && s[i].0 == id;
            lemma_entry_found(s, i);
            let a: int = if i < k { i } else { i - 1 };
            assert(u[a] == s[i]);
            lemma_entry_found(u, a);
        } else {
            lemma_entry_absent(s, id);
            assert forall|i: int| 0 <= i < u.len() implies #[trigger] u[i].0 != id by {
                let a: int = if i < k { i } else { i + 1 };
                assert(u[i] == s[a]);
            }
            lemma_entry_absent(u, id);
        }
    }
}

} // verus!
