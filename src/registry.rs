//! The pool registry: each pool's pair of assets, cached invariant constant and
//! total issued shares, keyed by the pool's account.
use vstd::prelude::*;

verus! {

/// What is recorded for one pool.
#[derive(Clone, Copy, Debug, PartialEq, Eq, Structural)]
pub struct Pool {
    pub first_asset: u64,
    pub second_asset: u64,
    /// Cached product of the two reserves, refreshed after each operation.
    pub constant: u128,
    /// Shares issued to all providers together.
    pub total_shares: u128,
}

#[derive(Clone, Copy)]
struct Entry {
    id: u64,
    pool: Pool,
}

spec fn entries_map(s: Seq<Entry>) -> Map<u64, Pool>
    decreases s.len(),
{
    if s.len() == 0 {
        Map::empty()
    } else {
        entries_map(s.drop_last()).insert(s.last().id, s.last().pool)
    }
}

spec fn ids_distinct(s: Seq<Entry>) -> bool {
    forall|i: int, j: int| 0 <= i < j < s.len() ==> (#[trigger] s[i]).id != (#[trigger] s[j]).id
}

proof fn lemma_entries_contents(s: Seq<Entry>)
    requires
        ids_distinct(s),
    ensures
        forall|i: int|
            0 <= i < s.len() ==> entries_map(s).contains_key((#[trigger] s[i]).id) && entries_map(
                s,
            )[s[i].id] == s[i].pool,
        forall|k: u64|
            #[trigger] entries_map(s).contains_key(k) ==> exists|i: int|
                0 <= i < s.len() && (#[trigger] s[i]).id == k,
    decreases s.len(),
{
    if s.len() > 0 {
        let t = s.drop_last();
        let n = s.len() - 1;
        assert(ids_distinct(t)) by {
            assert forall|a: int, b: int| 0 <= a < b < t.len() implies (#[trigger] t[a]).id != (
            #[trigger] t[b]).id by {
                assert(t[a] == s[a] && t[b] == s[b]);
            }
        }
        lemma_entries_contents(t);
        assert forall|i: int| 0 <= i < s.len() implies entries_map(s).contains_key(
            (#[trigger] s[i]).id,
        ) && entries_map(s)[s[i].id] == s[i].pool by {
            if i < n {
                assert(t[i] == s[i]);
                assert(s[i].id != s[n].id);
                assert(entries_map(t).contains_key(t[i].id));
            }
        }
        assert forall|k: u64| #[trigger] entries_map(s).contains_key(k) implies exists|i: int|
            0 <= i < s.len() && (#[trigger] s[i]).id == k by {
            if k != s[n].id {
                assert(entries_map(t).contains_key(k));
                let i = choose|i: int| 0 <= i < t.len() && (#[trigger] t[i]).id == k;
                assert(s[i] == t[i]);
            } else {
                assert(s[n].id == k);
            }
        }
    }
}

proof fn lemma_entries_update(s: Seq<Entry>, i: int, x: Entry)
    requires
        ids_distinct(s),
        0 <= i < s.len(),
        x.id == s[i].id,
    ensures
        ids_distinct(s.update(i, x)),
        entries_map(s.update(i, x)) == entries_map(s).insert(x.id, x.pool),
    decreases s.len(),
{
    let u = s.update(i, x);
    assert(ids_distinct(u)) by {
        assert forall|a: int, b: int| 0 <= a < b < u.len() implies (#[trigger] u[a]).id != (
        #[trigger] u[b]).id by {
            if a != i && b != i {
                assert(s[a].id != s[b].id);
            } else if a == i {
                assert(s[i].id != s[b].id);
            } else {
                assert(s[a].id != s[i].id);
            }
        }
    }
    if i == s.len() - 1 {
        assert(u.drop_last() =~= s.drop_last());
        assert(entries_map(u) =~= entries_map(s).insert(x.id, x.pool));
    } else {
        let t = s.drop_last();
        assert(ids_distinct(t)) by {
            assert forall|a: int, b: int| 0 <= a < b < t.len() implies (#[trigger] t[a]).id != (
            #[trigger] t[b]).id by {
                assert(t[a] == s[a] && t[b] == s[b]);
            }
        }
        lemma_entries_update(t, i, x);
        assert(u.drop_last() =~= t.update(i, x));
        assert(u.last() == s.last());
        assert(s[i].id != s[s.len() - 1].id);
        assert(entries_map(u) =~= entries_map(s).insert(x.id, x.pool));
    }
}

proof fn lemma_entries_push(s: Seq<Entry>, x: Entry)
    requires
        ids_distinct(s),
        !entries_map(s).contains_key(x.id),
    ensures
        ids_distinct(s.push(x)),
        entries_map(s.push(x)) == entries_map(s).insert(x.id, x.pool),
{
    lemma_entries_contents(s);
    let p = s.push(x);
    assert(p.drop_last() =~= s);
    assert forall|a: int, b: int| 0 <= a < b < p.len() implies (#[trigger] p[a]).id != (
    #[trigger] p[b]).id by {
        if b < s.len() {
            assert(p[a] == s[a] && p[b] == s[b]);
        } else {
            assert(p[a] == s[a]);
            assert(entries_map(s).contains_key(s[a].id));
        }
    }
}

/// Pools by account.
pub struct Registry {
    entries: Vec<Entry>,
}

impl View for Registry {
    type V = Map<u64, Pool>;

    closed spec fn view(&self) -> Map<u64, Pool> {
        entries_map(self.entries@)
    }
}

impl Registry {
    pub closed spec fn wf(&self) -> bool {
        ids_distinct(self.entries@)
    }

    pub fn new() -> (r: Registry)
        ensures
            r.wf(),
            r@ == Map::<u64, Pool>::empty(),
    {
        Registry { entries: Vec::new() }
    }

    /// An independent copy of the registry.
    pub fn duplicate(&self) -> (r: Registry)
        requires
            self.wf(),
        ensures
            r.wf(),
            r@ == self@,
    {
        let mut entries: Vec<Entry> = Vec::new();
        let mut i: usize = 0;
        while i < self.entries.len()
            invariant
                i <= self.entries@.len(),
                entries@ == self.entries@.subrange(0, i as int),
            decreases self.entries@.len() - i,
        {
            entries.push(self.entries[i]);
            i = i + 1;
        }
        assert(entries@ =~= self.entries@);
        Registry { entries }
    }

    fn index_of(&self, id: u64) -> (r: Option<usize>)
        requires
            self.wf(),
        ensures
            r is None <==> !self@.contains_key(id),
            r matches Some(i) ==> i < self.entries@.len() && self.entries@[i as int].id == id,
    {
        proof {
            lemma_entries_contents(self.entries@);
        }
        let mut i: usize = 0;
        while i < self.entries.len()
            invariant
                i <= self.entries@.len(),
                self.wf(),
                forall|j: int| 0 <= j < i ==> (#[trigger] self.entries@[j]).id != id,
            decreases self.entries@.len() - i,
        {
            if self.entries[i].id == id {
                proof {
                    lemma_entries_contents(self.entries@);
                    assert(entries_map(self.entries@).contains_key(self.entries@[i as int].id));
                }
                return Some(i);
            }
            i = i + 1;
        }
        None
    }

    /// The pool recorded under `id`, if any.
    pub fn get(&self, id: u64) -> (r: Option<Pool>)
        requires
            self.wf(),
        ensures
            r == (if self@.contains_key(id) {
                Some(self@[id])
            } else {
                None
            }),
    {
        proof {
            lemma_entries_contents(self.entries@);
        }
        match self.index_of(id) {
            Some(i) => Some(self.entries[i].pool),
            None => None,
        }
    }

    /// Records `pool` under `id`.
    pub fn set(&mut self, id: u64, pool: Pool)
        requires
            old(self).wf(),
        ensures
            final(self).wf(),
            final(self)@ == old(self)@.insert(id, pool),
    {
        let x = Entry { id, pool };
        match self.index_of(id) {
            Some(i) => {
                proof {
                    lemma_entries_update(self.entries@, i as int, x);
                }
                self.entries.set(i, x);
            },
            None => {
                proof {
                    lemma_entries_push(self.entries@, x);
                }
                self.entries.push(x);
            },
        }
    }
}

} // verus!
