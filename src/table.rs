//! A finite map from pairs of identifiers to balances, kept as a list of
//! slots with distinct keys.
use vstd::prelude::*;

verus! {

/// One entry of a [`Table`].
#[derive(Clone, Copy, Debug, PartialEq, Eq)]
pub struct Slot {
    pub first: u64,
    pub second: u64,
    pub value: u128,
}

pub open spec fn slot_key(s: Slot) -> (u64, u64) {
    (s.first, s.second)
}

/// The map that a list of slots stands for; a later slot wins over an earlier
/// one with the same key.
pub open spec fn slots_map(s: Seq<Slot>) -> Map<(u64, u64), u128>
    decreases s.len(),
{
    if s.len() == 0 {
        Map::empty()
    } else {
        slots_map(s.drop_last()).insert(slot_key(s.last()), s.last().value)
    }
}

/// Sum of the values of the slots whose first key component is `first`.
pub open spec fn slots_sum(s: Seq<Slot>, first: u64) -> int
    decreases s.len(),
{
    if s.len() == 0 {
        0
    } else {
        slots_sum(s.drop_last(), first) + if s.last().first == first {
            s.last().value as int
        } else {
            0
        }
    }
}

pub open spec fn keys_distinct(s: Seq<Slot>) -> bool {
    forall|i: int, j: int| 0 <= i < j < s.len() ==> slot_key(#[trigger] s[i]) != slot_key(#[trigger] s[j])
}

/// Every slot is in the map with its value, and nothing else is.
pub proof fn lemma_slots_map_contents(s: Seq<Slot>)
    requires
        keys_distinct(s),
    ensures
        forall|i: int|
            0 <= i < s.len() ==> slots_map(s).contains_key(slot_key(#[trigger] s[i])) && slots_map(
                s,
            )[slot_key(s[i])] == s[i].value,
        forall|k: (u64, u64)|
            #[trigger] slots_map(s).contains_key(k) ==> exists|i: int|
                0 <= i < s.len() && slot_key(#[trigger] s[i]) == k,
    decreases s.len(),
{
    if s.len() > 0 {
        let t = s.drop_last();
        let n = s.len() - 1;
        assert(keys_distinct(t)) by {
            assert forall|a: int, b: int| 0 <= a < b < t.len() implies slot_key(#[trigger] t[a])
                != slot_key(#[trigger] t[b]) by {
                assert(t[a] == s[a] && t[b] == s[b]);
            }
        }
        lemma_slots_map_contents(t);
        assert forall|i: int| 0 <= i < s.len() implies slots_map(s).contains_key(
            slot_key(#[trigger] s[i]),
        ) && slots_map(s)[slot_key(s[i])] == s[i].value by {
            if i < n {
                assert(t[i] == s[i]);
                assert(slot_key(s[i]) != slot_key(s[n]));
                assert(slots_map(t).contains_key(slot_key(t[i])));
            }
        }
        assert forall|k: (u64, u64)| #[trigger] slots_map(s).contains_key(k) implies exists|i: int|
            0 <= i < s.len() && slot_key(#[trigger] s[i]) == k by {
            if k != slot_key(s[n]) {
                assert(slots_map(t).contains_key(k));
                let i = choose|i: int| 0 <= i < t.len() && slot_key(#[trigger] t[i]) == k;
                assert(s[i] == t[i]);
            } else {
                assert(slot_key(s[n]) == k);
            }
        }
    }
}

/// Replacing a slot by one with the same key updates the map at that key.
pub proof fn lemma_slots_update(s: Seq<Slot>, i: int, x: Slot)
    requires
        keys_distinct(s),
        0 <= i < s.len(),
        slot_key(x) == slot_key(s[i]),
    ensures
        keys_distinct(s.update(i, x)),
        slots_map(s.update(i, x)) == slots_map(s).insert(slot_key(x), x.value),
        slots_sum(s.update(i, x), x.first) == slots_sum(s, x.first) - s[i].value + x.value,
        forall|f: u64| f != x.first ==> slots_sum(s.update(i, x), f) == slots_sum(s, f),
    decreases s.len(),
{
    let u = s.update(i, x);
    assert(keys_distinct(u)) by {
        assert forall|a: int, b: int| 0 <= a < b < u.len() implies slot_key(#[trigger] u[a])
            != slot_key(#[trigger] u[b]) by {
            if a != i && b != i {
                assert(slot_key(s[a]) != slot_key(s[b]));
            } else if a == i {
                assert(slot_key(s[i]) != slot_key(s[b]));
            } else {
                assert(slot_key(s[a]) != slot_key(s[i]));
            }
        }
    }
    if i == s.len() - 1 {
        assert(u.drop_last() =~= s.drop_last());
        assert(slots_map(u) =~= slots_map(s).insert(slot_key(x), x.value));
        assert forall|f: u64| f != x.first implies slots_sum(u, f) == slots_sum(s, f) by {
            assert(s.last().first == x.first);
        }
    } else {
        let t = s.drop_last();
        assert(keys_distinct(t)) by {
            assert forall|a: int, b: int| 0 <= a < b < t.len() implies slot_key(#[trigger] t[a])
                != slot_key(#[trigger] t[b]) by {
                assert(t[a] == s[a] && t[b] == s[b]);
            }
        }
        lemma_slots_update(t, i, x);
        assert(u.drop_last() =~= t.update(i, x));
        assert(u.last() == s.last());
        assert(slot_key(s[i]) != slot_key(s[s.len() - 1]));
        assert(slots_map(u) =~= slots_map(s).insert(slot_key(x), x.value));
        assert forall|f: u64| f != x.first implies slots_sum(u, f) == slots_sum(s, f) by {
            assert(slots_sum(t.update(i, x), f) == slots_sum(t, f));
        }
    }
}

/// Appending a slot.
pub proof fn lemma_slots_push(s: Seq<Slot>, x: Slot)
    requires
        keys_distinct(s),
        !slots_map(s).contains_key(slot_key(x)),
    ensures
        keys_distinct(s.push(x)),
        slots_map(s.push(x)) == slots_map(s).insert(slot_key(x), x.value),
        slots_sum(s.push(x), x.first) == slots_sum(s, x.first) + x.value,
        forall|f: u64| f != x.first ==> slots_sum(s.push(x), f) == slots_sum(s, f),
{
    lemma_slots_map_contents(s);
    let p = s.push(x);
    assert(p.drop_last() =~= s);
    assert forall|a: int, b: int| 0 <= a < b < p.len() implies slot_key(#[trigger] p[a])
        != slot_key(#[trigger] p[b]) by {
        if b < s.len() {
            assert(p[a] == s[a] && p[b] == s[b]);
        } else {
            assert(p[a] == s[a]);
            assert(slots_map(s).contains_key(slot_key(s[a])));
        }
    }
}

/// The value under `(first, second)`, counting a missing key as zero.
pub open spec fn value_or_zero(m: Map<(u64, u64), u128>, first: u64, second: u64) -> int {
    if m.contains_key((first, second)) {
        m[(first, second)] as int
    } else {
        0
    }
}

/// Sum of the values under `(first, q)` for each `q` of `seconds`.
pub open spec fn sum_over(m: Map<(u64, u64), u128>, first: u64, seconds: Seq<u64>) -> int
    decreases seconds.len(),
{
    if seconds.len() == 0 {
        0
    } else {
        sum_over(m, first, seconds.drop_last()) + value_or_zero(m, first, seconds.last())
    }
}

proof fn lemma_sum_over_other_first(
    m: Map<(u64, u64), u128>,
    first: u64,
    seconds: Seq<u64>,
    k: (u64, u64),
    v: u128,
)
    requires
        k.0 != first,
    ensures
        sum_over(m.insert(k, v), first, seconds) == sum_over(m, first, seconds),
    decreases seconds.len(),
{
    if seconds.len() > 0 {
        lemma_sum_over_other_first(m, first, seconds.drop_last(), k, v);
    }
}

proof fn lemma_sum_over_insert(
    m: Map<(u64, u64), u128>,
    first: u64,
    seconds: Seq<u64>,
    second: u64,
    v: u128,
)
    requires
        seconds.no_duplicates(),
        seconds.contains(second),
    ensures
        sum_over(m.insert((first, second), v), first, seconds) == sum_over(m, first, seconds)
            - value_or_zero(m, first, second) + v,
    decreases seconds.len(),
{
    let t = seconds.drop_last();
    assert(t.no_duplicates());
    if seconds.last() == second {
        assert(!t.contains(second)) by {
            if t.contains(second) {
                let i = choose|i: int| 0 <= i < t.len() && t[i] == second;
                assert(seconds[i] == seconds[seconds.len() - 1]);
            }
        }
        lemma_sum_over_absent(m, first, t, second, v);
    } else {
        let i = choose|i: int| 0 <= i < seconds.len() && seconds[i] == second;
        assert(t[i] == second);
        lemma_sum_over_insert(m, first, t, second, v);
    }
}

proof fn lemma_sum_over_absent(
    m: Map<(u64, u64), u128>,
    first: u64,
    seconds: Seq<u64>,
    second: u64,
    v: u128,
)
    requires
        !seconds.contains(second),
    ensures
        sum_over(m.insert((first, second), v), first, seconds) == sum_over(m, first, seconds),
    decreases seconds.len(),
{
    if seconds.len() > 0 {
        let t = seconds.drop_last();
        assert(!t.contains(second)) by {
            if t.contains(second) {
                let i = choose|i: int| 0 <= i < t.len() && t[i] == second;
                assert(seconds[i] == second);
            }
        }
        assert(seconds[seconds.len() - 1] != second);
        lemma_sum_over_absent(m, first, t, second, v);
    }
}

/// The column sum of a list of slots is the sum of the map it stands for,
/// over any list of second components, without repeats, that covers the column.
proof fn lemma_slots_sum_over(s: Seq<Slot>, first: u64, seconds: Seq<u64>)
    requires
        keys_distinct(s),
        seconds.no_duplicates(),
        forall|i: int| 0 <= i < s.len() && (#[trigger] s[i]).first == first ==> seconds.contains(s[i].second),
    ensures
        slots_sum(s, first) == sum_over(slots_map(s), first, seconds),
    decreases s.len(),
{
    if s.len() == 0 {
        lemma_sum_over_empty(first, seconds);
    } else {
        let t = s.drop_last();
        let e = s.last();
        assert(keys_distinct(t)) by {
            assert forall|a: int, b: int| 0 <= a < b < t.len() implies slot_key(#[trigger] t[a])
                != slot_key(#[trigger] t[b]) by {
                assert(t[a] == s[a] && t[b] == s[b]);
            }
        }
        assert forall|i: int| 0 <= i < t.len() && (#[trigger] t[i]).first == first implies seconds.contains(t[i].second) by {
            assert(t[i] == s[i]);
        }
        lemma_slots_sum_over(t, first, seconds);
        lemma_slots_map_contents(t);
        assert(!slots_map(t).contains_key(slot_key(e))) by {
            if slots_map(t).contains_key(slot_key(e)) {
                let i = choose|i: int| 0 <= i < t.len() && slot_key(#[trigger] t[i]) == slot_key(e);
                assert(s[i] == t[i]);
                assert(slot_key(s[i]) != slot_key(s[s.len() - 1]));
            }
        }
        if e.first == first {
            assert(s[s.len() - 1] == e);
            lemma_sum_over_insert(slots_map(t), first, seconds, e.second, e.value);
        } else {
            lemma_sum_over_other_first(slots_map(t), first, seconds, slot_key(e), e.value);
        }
    }
}

proof fn lemma_sum_over_empty(first: u64, seconds: Seq<u64>)
    ensures
        sum_over(Map::empty(), first, seconds) == 0,
    decreases seconds.len(),
{
    if seconds.len() > 0 {
        lemma_sum_over_empty(first, seconds.drop_last());
    }
}

/// A finite map from `(u64, u64)` keys to `u128` values.
pub struct Table {
    slots: Vec<Slot>,
}

impl View for Table {
    type V = Map<(u64, u64), u128>;

    closed spec fn view(&self) -> Map<(u64, u64), u128> {
        slots_map(self.slots@)
    }
}

impl Table {
    /// Well-formedness: keys are distinct.
    pub closed spec fn wf(&self) -> bool {
        keys_distinct(self.slots@)
    }

    /// Sum of the values stored under keys whose first component is `first`.
    pub closed spec fn column_sum(&self, first: u64) -> int {
        slots_sum(self.slots@, first)
    }

    /// The column sum is the sum of the values under `(first, q)` for the
    /// `q` of any list without repeats that holds every key of the column.
    pub proof fn lemma_column_sum(&self, first: u64, seconds: Seq<u64>)
        requires
            self.wf(),
            seconds.no_duplicates(),
            forall|q: u64| #[trigger] self@.contains_key((first, q)) ==> seconds.contains(q),
        ensures
            self.column_sum(first) == sum_over(self@, first, seconds),
    {
        lemma_slots_map_contents(self.slots@);
        assert forall|i: int|
            0 <= i < self.slots@.len() && (#[trigger] self.slots@[i]).first == first implies seconds.contains(
            self.slots@[i].second,
        ) by {
            assert(self@.contains_key(slot_key(self.slots@[i])));
        }
        lemma_slots_sum_over(self.slots@, first, seconds);
    }

    pub fn new() -> (r: Table)
        ensures
            r.wf(),
            r@ == Map::<(u64, u64), u128>::empty(),
            forall|f: u64| r.column_sum(f) == 0,
    {
        Table { slots: Vec::new() }
    }

    /// An independent copy of the table.
    pub fn duplicate(&self) -> (r: Table)
        requires
            self.wf(),
        ensures
            r.wf(),
            r@ == self@,
            forall|f: u64| r.column_sum(f) == self.column_sum(f),
    {
        let mut slots: Vec<Slot> = Vec::new();
        let mut i: usize = 0;
        while i < self.slots.len()
            invariant
                i <= self.slots@.len(),
                slots@ == self.slots@.subrange(0, i as int),
            decreases self.slots@.len() - i,
        {
            slots.push(self.slots[i]);
            i = i + 1;
        }
        assert(slots@ =~= self.slots@);
        Table { slots }
    }

    fn index_of(&self, first: u64, second: u64) -> (r: Option<usize>)
        requires
            self.wf(),
        ensures
            r is None <==> !self@.contains_key((first, second)),
            r matches Some(i) ==> i < self.slots@.len() && slot_key(self.slots@[i as int]) == (
                first,
                second,
            ),
    {
        proof {
            lemma_slots_map_contents(self.slots@);
        }
        let mut i: usize = 0;
        while i < self.slots.len()
            invariant
                i <= self.slots@.len(),
                self.wf(),
                forall|j: int| 0 <= j < i ==> slot_key(#[trigger] self.slots@[j]) != (first, second),
            decreases self.slots@.len() - i,
        {
            let s = self.slots[i];
            if s.first == first && s.second == second {
                proof {
                    lemma_slots_map_contents(self.slots@);
                    assert(self.slots@[i as int] == s);
                    assert(slots_map(self.slots@).contains_key(slot_key(self.slots@[i as int])));
                }
                return Some(i);
            }
            i = i + 1;
        }
        None
    }

    /// The value stored under `(first, second)`, if any.
    pub fn get(&self, first: u64, second: u64) -> (r: Option<u128>)
        requires
            self.wf(),
        ensures
            r == (if self@.contains_key((first, second)) {
                Some(self@[(first, second)])
            } else {
                None
            }),
    {
        proof {
            lemma_slots_map_contents(self.slots@);
        }
        match self.index_of(first, second) {
            Some(i) => Some(self.slots[i].value),
            None => None,
        }
    }

    /// Stores `value` under `(first, second)`.
    pub fn set(&mut self, first: u64, second: u64, value: u128)
        requires
            old(self).wf(),
        ensures
            final(self).wf(),
            final(self)@ == old(self)@.insert((first, second), value),
            final(self).column_sum(first) == old(self).column_sum(first) - (if old(
                self,
            )@.contains_key((first, second)) {
                old(self)@[(first, second)] as int
            } else {
                0
            }) + value,
            forall|f: u64| f != first ==> final(self).column_sum(f) == old(self).column_sum(f),
    {
        proof {
            lemma_slots_map_contents(self.slots@);
        }
        let x = Slot { first, second, value };
        match self.index_of(first, second) {
            Some(i) => {
                proof {
                    lemma_slots_update(self.slots@, i as int, x);
                }
                self.slots.set(i, x);
            },
            None => {
                proof {
                    lemma_slots_push(self.slots@, x);
                }
                self.slots.push(x);
            },
        }
    }
}

} // verus!
