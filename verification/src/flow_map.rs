//! A map from flow keys to flow values that keeps the order of insertion.

use std::collections::HashMap;

use vstd::prelude::*;

use crate::flow::{FlowAddrs, FlowKey, FlowVal};

verus! {

/// No key occurs twice.
pub open spec fn distinct_keys(s: Seq<(FlowKey, FlowVal)>) -> bool {
    forall|i: int, j: int| 0 <= i < j < s.len() ==> (#[trigger] s[i]).0 != (#[trigger] s[j]).0
}

/// The pairs of `s` as a map.
pub open spec fn map_of(s: Seq<(FlowKey, FlowVal)>) -> Map<FlowKey, FlowVal>
    decreases s.len(),
{
    if s.len() == 0 {
        Map::empty()
    } else {
        map_of(s.drop_last()).insert(s.last().0, s.last().1)
    }
}

/// Every pair of a sequence without double keys is a pair of its map, and the
/// map has no others.
pub proof fn lemma_map_of(s: Seq<(FlowKey, FlowVal)>)
    requires
        distinct_keys(s),
    ensures
        forall|i: int|
            0 <= i < s.len() ==> map_of(s).contains_key((#[trigger] s[i]).0) && map_of(s)[s[i].0]
                == s[i].1,
        forall|k: FlowKey| #[trigger]
            map_of(s).contains_key(k) ==> exists|i: int|
                0 <= i < s.len() && (#[trigger] s[i]).0 == k,
        map_of(s).dom().finite(),
        map_of(s).len() == s.len(),
    decreases s.len(),
{
    if s.len() > 0 {
        let t = s.drop_last();
        lemma_map_of(t);
        assert forall|i: int| 0 <= i < s.len() implies map_of(s).contains_key((#[trigger] s[i]).0)
            && map_of(s)[s[i].0] == s[i].1 by {
            if i < t.len() {
                assert(t[i] == s[i]);
                assert(s[i].0 != s[s.len() - 1].0);
            }
        }
        assert forall|k: FlowKey| #[trigger] map_of(s).contains_key(k) implies exists|i: int|
            0 <= i < s.len() && (#[trigger] s[i]).0 == k by {
            if k == s.last().0 {
                assert(s[s.len() - 1].0 == k);
            } else {
                assert(map_of(t).contains_key(k));
                let i = choose|i: int| 0 <= i < t.len() && (#[trigger] t[i]).0 == k;
                assert(s[i].0 == k);
            }
        }
        if map_of(t).contains_key(s.last().0) {
            let i = choose|i: int| 0 <= i < t.len() && (#[trigger] t[i]).0 == s.last().0;
            assert(s[i].0 == s[s.len() - 1].0);
        }
    }
}

impl FlowKey {
    /// A number by which keys are looked up. Equal keys have equal digests.
    pub open spec fn spec_digest(self) -> u128 {
        let ends: u128 = match self.addrs {
            FlowAddrs::V4 { src, dst } => ((src.bits as u128) << 32) | (dst.bits as u128),
            FlowAddrs::V6 { src, dst } => src.bits ^ ((dst.bits << 1) | (dst.bits >> 127)),
        };
        let ports: u128 = ((match self.src_port {
            Some(p) => p,
            None => 0,
        } as u128) << 64) | ((match self.dst_port {
            Some(p) => p,
            None => 0,
        } as u128) << 80);
        ends ^ ports ^ ((self.protocol as u128) << 96)
    }

    pub fn digest(&self) -> (r: u128)
        ensures
            r == self.spec_digest(),
    {
        let ends: u128 = match self.addrs {
            FlowAddrs::V4 { src, dst } => ((src.bits as u128) << 32) | (dst.bits as u128),
            FlowAddrs::V6 { src, dst } => src.bits ^ ((dst.bits << 1) | (dst.bits >> 127)),
        };
        let sport: u16 = self.src_port.unwrap_or(0);
        let dport: u16 = self.dst_port.unwrap_or(0);
        let ports: u128 = ((sport as u128) << 64) | ((dport as u128) << 80);
        ends ^ ports ^ ((self.protocol as u128) << 96)
    }
}

/// Flows by key. The pairs stand in `entries` in the order in which their keys
/// came; `index` gives, for a digest, the places of the keys that have it.
pub struct FlowMap {
    entries: Vec<(FlowKey, FlowVal)>,
    index: HashMap<u128, Vec<usize>>,
}

impl View for FlowMap {
    type V = Map<FlowKey, FlowVal>;

    closed spec fn view(&self) -> Map<FlowKey, FlowVal> {
        map_of(self.entries@)
    }
}

impl FlowMap {
    /// The index leads to every entry and to nothing else, and no key occurs
    /// twice.
    pub closed spec fn wf(&self) -> bool {
        &&& distinct_keys(self.entries@)
        &&& forall|i: int|
            0 <= i < self.entries@.len() ==> {
                let d = (#[trigger] self.entries@[i]).0.spec_digest();
                self.index@.contains_key(d) && self.index@[d]@.contains(i as usize)
            }
        &&& forall|d: u128, j: int|
            self.index@.contains_key(d) && 0 <= j < self.index@[d]@.len()
                ==> #[trigger] self.index@[d]@[j] < self.entries@.len()
    }

    pub fn new() -> (r: Self)
        ensures
            r.wf(),
            r@ == Map::<FlowKey, FlowVal>::empty(),
    {
        broadcast use vstd::std_specs::hash::group_hash_axioms;

        FlowMap { entries: Vec::new(), index: HashMap::new() }
    }

    /// How many flows there are.
    pub fn len(&self) -> (r: usize)
        requires
            self.wf(),
        ensures
            r == self@.len(),
    {
        proof {
            lemma_map_of(self.entries@);
        }
        self.entries.len()
    }

    pub fn is_empty(&self) -> (r: bool)
        requires
            self.wf(),
        ensures
            r == (self@ == Map::<FlowKey, FlowVal>::empty()),
    {
        proof {
            lemma_map_of(self.entries@);
            if self.entries@.len() > 0 {
                assert(self@.contains_key(self.entries@[0].0));
            }
        }
        self.entries.len() == 0
    }

    /// The place of `key`.
    fn find(&self, key: &FlowKey) -> (r: Option<usize>)
        requires
            self.wf(),
        ensures
            match r {
                Some(i) => i < self.entries@.len() && self.entries@[i as int].0 == *key,
                None => forall|i: int|
                    0 <= i < self.entries@.len() ==> (#[trigger] self.entries@[i]).0 != *key,
            },
    {
        broadcast use vstd::std_specs::hash::group_hash_axioms;

        let d: u128 = key.digest();
        match self.index.get(&d) {
            Some(places) => {
                let mut j: usize = 0;
                while j < places.len()
                    invariant
                        self.wf(),
                        d == key.spec_digest(),
                        self.index@.contains_key(d),
                        *places == self.index@[d],
                        j <= places.len(),
                        forall|i: int|
                            0 <= i < j ==> self.entries@[#[trigger] places@[i] as int].0 != *key,
                    decreases places.len() - j,
                {
                    assert(self.index@[d]@[j as int] < self.entries@.len());
                    let i: usize = places[j];
                    if self.entries[i].0 == *key {
                        return Some(i);
                    }
                    j = j + 1;
                }
                assert forall|i: int| 0 <= i < self.entries@.len() implies (
                #[trigger] self.entries@[i]).0 != *key by {
                    if self.entries@[i].0 == *key {
                        assert(self.index@[d]@.contains(i as usize));
                        let j = choose|j: int| 0 <= j < places@.len() && places@[j] == i as usize;
                        assert(self.entries@[places@[j] as int].0 != *key);
                        assert(self.entries.len() == self.entries@.len());
                    }
                }
                None
            },
            None => None,
        }
    }

    /// The value at `key`.
    pub fn get(&self, key: &FlowKey) -> (r: Option<FlowVal>)
        requires
            self.wf(),
        ensures
            match r {
                Some(v) => self@.contains_key(*key) && self@[*key] == v,
                None => !self@.contains_key(*key),
            },
    {
        proof {
            lemma_map_of(self.entries@);
        }
        match self.find(key) {
            Some(i) => Some(self.entries[i].1),
            None => None,
        }
    }

    /// Put `val` at `key`, in place of what was there.
    pub fn insert(&mut self, key: FlowKey, val: FlowVal)
        requires
            old(self).wf(),
        ensures
            final(self).wf(),
            final(self)@ == old(self)@.insert(key, val),
    {
        broadcast use vstd::std_specs::hash::group_hash_axioms;

        let ghost before = self.entries@;
        let ghost index_before = self.index@;
        match self.find(&key) {
            Some(i) => {
                self.entries[i] = (key, val);
                proof {
                    let s = self.entries@;
                    assert(s =~= before.update(i as int, (key, val)));
                    assert(forall|j: int| 0 <= j < s.len() ==> (#[trigger] s[j]).0 == before[j].0);
                    assert(distinct_keys(s));
                    lemma_map_of(before);
                    lemma_map_of(s);
                    lemma_same_pairs(before, s, key, val);
                }
            },
            None => {
                let place: usize = self.entries.len();
                let d: u128 = key.digest();
                self.entries.push((key, val));
                let mut places: Vec<usize> = match self.index.remove(&d) {
                    Some(p) => p,
                    None => Vec::new(),
                };
                let ghost places_before = places@;
                places.push(place);
                self.index.insert(d, places);
                proof {
                    let s = self.entries@;
                    assert(s.drop_last() =~= before);
                    assert(self@ =~= map_of(before).insert(key, val));
                    assert(self.index@ =~= index_before.insert(d, places));
                    assert forall|i: int| 0 <= i < s.len() implies {
                        let e = (#[trigger] s[i]).0.spec_digest();
                        self.index@.contains_key(e) && self.index@[e]@.contains(i as usize)
                    } by {
                        let e = s[i].0.spec_digest();
                        if i == place {
                            assert(places@[places@.len() - 1] == place);
                        } else {
                            assert(before[i] == s[i]);
                            assert(index_before[e]@.contains(i as usize));
                            if e == d {
                                let j = choose|j: int|
                                    0 <= j < index_before[e]@.len() && index_before[e]@[j]
                                        == i as usize;
                                assert(places@[j] == i as usize);
                            }
                        }
                    }
                    assert forall|e: u128, j: int|
                        self.index@.contains_key(e) && 0 <= j
                            < self.index@[e]@.len() implies #[trigger] self.index@[e]@[j]
                        < s.len() by {
                        if e == d {
                            if j < places_before.len() {
                                assert(index_before[e]@[j] == places_before[j]);
                            }
                        } else {
                            assert(index_before[e]@[j] < before.len());
                        }
                    }
                }
            },
        }
    }

    /// The flows as a list, each key once.
    pub fn into_flows(self) -> (r: Vec<(FlowKey, FlowVal)>)
        requires
            self.wf(),
        ensures
            distinct_keys(r@),
            map_of(r@) == self@,
    {
        self.entries
    }
}

proof fn lemma_same_pairs(
    before: Seq<(FlowKey, FlowVal)>,
    after: Seq<(FlowKey, FlowVal)>,
    key: FlowKey,
    val: FlowVal,
)
    requires
        distinct_keys(before),
        distinct_keys(after),
        exists|i: int|
            0 <= i < before.len() && (#[trigger] before[i]).0 == key && after == before.update(
                i,
                (key, val),
            ),
    ensures
        map_of(after) == map_of(before).insert(key, val),
{
    lemma_map_of(before);
    lemma_map_of(after);
    let i = choose|i: int|
        0 <= i < before.len() && (#[trigger] before[i]).0 == key && after == before.update(
            i,
            (key, val),
        );
    let m = map_of(before).insert(key, val);
    assert(after[i] == (key, val));
    assert forall|k: FlowKey| map_of(after).contains_key(k) == m.contains_key(k) by {
        if map_of(after).contains_key(k) {
            let j = choose|j: int| 0 <= j < after.len() && (#[trigger] after[j]).0 == k;
            assert(map_of(before).contains_key(before[j].0));
        }
        if map_of(before).contains_key(k) {
            let j = choose|j: int| 0 <= j < before.len() && (#[trigger] before[j]).0 == k;
            assert(map_of(after).contains_key(after[j].0));
        }
    }
    assert forall|k: FlowKey| #[trigger] map_of(after).contains_key(k) implies map_of(after)[k]
        == m[k] by {
        let j = choose|j: int| 0 <= j < after.len() && (#[trigger] after[j]).0 == k;
        if j != i {
            assert(after[j] == before[j]);
            assert(map_of(before)[before[j].0] == before[j].1);
            if i < j {
                assert(before[i].0 != before[j].0);
            } else {
                assert(before[j].0 != before[i].0);
            }
        }
    }
    assert(map_of(after) =~= m);
}

} // verus!
