//! Maps whose keys are destinations.

use vstd::prelude::*;

use crate::msgs::socks5;
use crate::msgs::socks5::SocksAddr;

verus! {

/// A map from destinations, kept as a list in which no destination occurs twice.
pub struct AddrMap<V> {
    entries: Vec<(SocksAddr, V)>,
}

/// What a list of entries maps.
spec fn entries_map<V>(entries: Seq<(SocksAddr, V)>) -> Map<socks5::SocksAddrView, V>
    decreases entries.len(),
{
    if entries.len() == 0 {
        Map::empty()
    } else {
        entries_map(entries.drop_last()).insert(entries.last().0@, entries.last().1)
    }
}

/// No destination occurs twice.
spec fn distinct<V>(entries: Seq<(SocksAddr, V)>) -> bool {
    forall|i: int, j: int|
        0 <= i < j < entries.len() ==> (#[trigger] entries[i]).0@ != (#[trigger] entries[j]).0@
}

/// Where a destination stands in the list, there the list says what it maps to.
proof fn lemma_entries_map<V>(entries: Seq<(SocksAddr, V)>)
    requires
        distinct(entries),
    ensures
        forall|i: int|
            0 <= i < entries.len() ==> entries_map(entries).contains_key(
                (#[trigger] entries[i]).0@,
            ) && entries_map(entries)[entries[i].0@] == entries[i].1,
        forall|key: socks5::SocksAddrView| #[trigger]
            entries_map(entries).contains_key(key) ==> exists|i: int|
                0 <= i < entries.len() && (#[trigger] entries[i]).0@ == key,
    decreases entries.len(),
{
    if entries.len() > 0 {
        let init = entries.drop_last();
        lemma_entries_map(init);
        assert forall|i: int| 0 <= i < entries.len() implies entries_map(entries).contains_key(
            (#[trigger] entries[i]).0@,
        ) && entries_map(entries)[entries[i].0@] == entries[i].1 by {
            if i < init.len() {
                assert(init[i] == entries[i]);
            }
        }
        assert forall|key: socks5::SocksAddrView| #[trigger]
            entries_map(entries).contains_key(key) implies exists|i: int|
            0 <= i < entries.len() && (#[trigger] entries[i]).0@ == key by {
            if key == entries.last().0@ {
                assert(entries[entries.len() - 1].0@ == key);
            } else {
                assert(entries_map(init).contains_key(key));
                let i = choose|i: int| 0 <= i < init.len() && (#[trigger] init[i]).0@ == key;
                assert(entries[i].0@ == key);
            }
        }
    }
}

impl<V> View for AddrMap<V> {
    type V = Map<socks5::SocksAddrView, V>;

    closed spec fn view(&self) -> Map<socks5::SocksAddrView, V> {
        entries_map(self.entries@)
    }
}

impl<V> AddrMap<V> {
    /// No destination occurs twice.
    pub closed spec fn wf(self) -> bool {
        distinct(self.entries@)
    }

    /// No destinations.
    pub fn new() -> (r: AddrMap<V>)
        ensures
            r.wf(),
            r@ == Map::<socks5::SocksAddrView, V>::empty(),
    {
        AddrMap { entries: Vec::new() }
    }

    /// Where a destination stands in the list.
    fn position(&self, key: &SocksAddr) -> (r: Option<usize>)
        requires
            self.wf(),
        ensures
            match r {
                Some(i) => i < self.entries@.len() && self.entries@[i as int].0@ == key@
                    && self@.contains_key(key@) && self@[key@] == self.entries@[i as int].1,
                None => !self@.contains_key(key@),
            },
    {
        proof {
            lemma_entries_map(self.entries@);
        }
        let mut i: usize = 0;
        while i < self.entries.len()
            invariant
                i <= self.entries@.len(),
                forall|j: int| 0 <= j < i ==> (#[trigger] self.entries@[j]).0@ != key@,
                forall|j: int|
                    0 <= j < self.entries@.len() ==> self@.contains_key(
                        (#[trigger] self.entries@[j]).0@,
                    ) && self@[self.entries@[j].0@] == self.entries@[j].1,
            decreases self.entries@.len() - i,
        {
            if self.entries[i].0.same(key) {
                assert(self.entries@[i as int].0@ == key@);
                return Some(i);
            }
            i = i + 1;
        }
        None
    }

    /// What a destination maps to.
    pub fn get(&self, key: &SocksAddr) -> (r: Option<&V>)
        requires
            self.wf(),
        ensures
            r == if self@.contains_key(key@) {
                Some(&self@[key@])
            } else {
                None
            },
    {
        match self.position(key) {
            Some(i) => Some(&self.entries[i].1),
            None => None,
        }
    }

    /// Maps a new destination.
    pub fn insert(&mut self, key: SocksAddr, value: V)
        requires
            old(self).wf(),
            !old(self)@.contains_key(key@),
        ensures
            final(self).wf(),
            final(self)@ == old(self)@.insert(key@, value),
    {
        proof {
            lemma_entries_map(self.entries@);
        }
        let ghost before = self.entries@;
        self.entries.push((key, value));
        proof {
            assert(self.entries@.drop_last() == before);
        }
    }

    /// What the destinations map to.
    pub fn into_values(self) -> (r: Vec<V>)
        requires
            self.wf(),
        ensures
            forall|value: V| r@.contains(value) <==> #[trigger] self@.values().contains(value),
    {
        proof {
            lemma_entries_map(self.entries@);
        }
        let ghost map = self@;
        let ghost all = self.entries@;
        let mut values: Vec<V> = Vec::new();
        let mut entries = self.entries;
        while entries.len() > 0
            invariant
                entries@.len() + values@.len() == all.len(),
                entries@ == all.take(entries@.len() as int),
                forall|k: int|
                    0 <= k < values@.len() ==> #[trigger] values@[k] == all[all.len() - 1 - k].1,
            decreases entries@.len(),
        {
            match entries.pop() {
                Some(entry) => {
                    values.push(entry.1);
                },
                None => {},
            }
        }
        proof {
            assert forall|value: V| values@.contains(value) <==> #[trigger] map.values().contains(
                value,
            ) by {
                if values@.contains(value) {
                    let k = choose|k: int| 0 <= k < values@.len() && values@[k] == value;
                    let entry = all[all.len() - 1 - k];
                    assert(map.contains_key(entry.0@) && map[entry.0@] == value);
                }
                if map.values().contains(value) {
                    let key = choose|key: socks5::SocksAddrView| #[trigger]
                        map.contains_key(key) && map[key] == value;
                    let i = choose|i: int| 0 <= i < all.len() && (#[trigger] all[i]).0@ == key;
                    assert(values@[all.len() - 1 - i] == value);
                }
            }
        }
        values
    }

    /// A handle to what a destination maps to.
    pub fn get_mut(&mut self, key: &SocksAddr) -> (r: Option<&mut V>)
        requires
            old(self).wf(),
        ensures
            final(self).wf(),
            !old(self)@.contains_key(key@) ==> r is None && final(self)@ == old(self)@,
            old(self)@.contains_key(key@) ==> r is Some,
            old(self)@.contains_key(key@) ==> *r->0 == old(self)@[key@],
            old(self)@.contains_key(key@) ==> final(self)@ == old(self)@.insert(
                key@,
                *final(r->0),
            ),
    {
        let ghost before = self.entries@;
        match self.position(key) {
            Some(i) => {
                proof {
                    assert forall|value: V|
                        #![trigger before.update(i as int, (before[i as int].0, value))]
                        distinct(before.update(i as int, (before[i as int].0, value)))
                            && entries_map(before.update(i as int, (before[i as int].0, value)))
                            == entries_map(before).insert(key@, value) by {
                        lemma_entries_map_update(before, i as int, value);
                    }
                }
                Some(&mut self.entries[i].1)
            },
            None => None,
        }
    }
}

/// Changing what one entry maps to changes the map there.
proof fn lemma_entries_map_update<V>(entries: Seq<(SocksAddr, V)>, i: int, value: V)
    requires
        distinct(entries),
        0 <= i < entries.len(),
    ensures
        distinct(entries.update(i, (entries[i].0, value))),
        entries_map(entries.update(i, (entries[i].0, value))) == entries_map(entries).insert(
            entries[i].0@,
            value,
        ),
{
    let after = entries.update(i, (entries[i].0, value));
    lemma_entries_map(entries);
    assert(distinct(after));
    lemma_entries_map(after);
    assert forall|key: socks5::SocksAddrView| #[trigger]
        entries_map(after).contains_key(key) <==> entries_map(entries).contains_key(key) by {
        if entries_map(after).contains_key(key) {
            let j = choose|j: int| 0 <= j < after.len() && (#[trigger] after[j]).0@ == key;
            assert(entries[j].0@ == key);
        }
        if entries_map(entries).contains_key(key) {
            let j = choose|j: int| 0 <= j < entries.len() && (#[trigger] entries[j]).0@ == key;
            assert(after[j].0@ == key);
        }
    }
    assert forall|key: socks5::SocksAddrView| #[trigger]
        entries_map(after).contains_key(key) && key != entries[i].0@ implies entries_map(
        after,
    )[key] == entries_map(entries)[key] by {
        let j = choose|j: int| 0 <= j < after.len() && (#[trigger] after[j]).0@ == key;
        assert(entries[j] == after[j]);
    }
    assert(after[i].0@ == entries[i].0@);
    assert(entries_map(after) == entries_map(entries).insert(entries[i].0@, value));
}

} // verus!
