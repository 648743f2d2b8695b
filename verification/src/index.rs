//! The in-memory index: for each key, the offset in the log at which its
//! most recent record starts.

use vstd::prelude::*;
use vstd::slice::slice_to_vec;

verus! {

/// The entries of a list, each key as the byte sequence that it holds.
pub open spec fn pairs(entries: Seq<(Vec<u8>, u64)>) -> Seq<(Seq<u8>, u64)> {
    Seq::new(entries.len(), |i: int| (entries[i].0@, entries[i].1))
}

/// The mapping that a list of entries stands for. Where a key occurs more
/// than once, its last entry counts.
pub open spec fn as_map(list: Seq<(Seq<u8>, u64)>) -> Map<Seq<u8>, u64>
    decreases list.len(),
{
    if list.len() == 0 {
        Map::empty()
    } else {
        as_map(list.drop_last()).insert(list.last().0, list.last().1)
    }
}

/// Whether no key occurs twice in a list of entries.
pub open spec fn distinct_keys(list: Seq<(Seq<u8>, u64)>) -> bool {
    forall|i: int, j: int|
        0 <= i < list.len() && 0 <= j < list.len() && i != j ==> (#[trigger] list[i]).0 != (
        #[trigger] list[j]).0
}

/// Whether some entry of a list has the key `key`.
pub open spec fn has_key(list: Seq<(Seq<u8>, u64)>, key: Seq<u8>) -> bool {
    exists|i: int| 0 <= i < list.len() && (#[trigger] list[i]).0 == key
}

/// The keys of the mapping are the keys of the list; where no key occurs
/// twice, each entry's key is mapped to that entry's offset.
pub proof fn lemma_as_map(list: Seq<(Seq<u8>, u64)>)
    ensures
        forall|key: Seq<u8>| #[trigger] as_map(list).contains_key(key) <==> has_key(list, key),
        distinct_keys(list) ==> forall|i: int|
            0 <= i < list.len() ==> as_map(list)[(#[trigger] list[i]).0] == list[i].1,
    decreases list.len(),
{
    if list.len() > 0 {
        let front = list.drop_last();
        lemma_as_map(front);
        assert(as_map(list) == as_map(front).insert(list.last().0, list.last().1));
        assert forall|key: Seq<u8>| #[trigger]
            as_map(list).contains_key(key) <==> has_key(list, key) by {
            if has_key(list, key) {
                let i = choose|i: int| 0 <= i < list.len() && (#[trigger] list[i]).0 == key;
                if i < list.len() - 1 {
                    assert(front[i].0 == key);
                    assert(has_key(front, key));
                    assert(as_map(front).contains_key(key));
                }
            }
            if as_map(list).contains_key(key) {
                if key != list.last().0 {
                    assert(as_map(front).contains_key(key));
                    assert(has_key(front, key));
                    let i = choose|i: int| 0 <= i < front.len() && (#[trigger] front[i]).0 == key;
                    assert(list[i].0 == key);
                } else {
                    assert(list[list.len() - 1].0 == key);
                }
            }
        }
        if distinct_keys(list) {
            assert(distinct_keys(front)) by {
                assert forall|i: int, j: int|
                    0 <= i < front.len() && 0 <= j < front.len() && i != j implies (
                #[trigger] front[i]).0 != (#[trigger] front[j]).0 by {
                    assert(list[i].0 != list[j].0);
                }
            }
            assert forall|i: int| 0 <= i < list.len() implies as_map(list)[(#[trigger] list[i]).0]
                == list[i].1 by {
                if i < list.len() - 1 {
                    assert(list[i].0 != list[list.len() - 1].0);
                    assert(front[i] == list[i]);
                }
            }
        }
    }
}

/// Taking an entry out of a list without repeated keys takes its key out of
/// the mapping.
pub proof fn lemma_as_map_remove(list: Seq<(Seq<u8>, u64)>, at: int)
    requires
        distinct_keys(list),
        0 <= at < list.len(),
    ensures
        distinct_keys(list.remove(at)),
        as_map(list.remove(at)) == as_map(list).remove(list[at].0),
{
    let rest = list.remove(at);
    assert forall|i: int, j: int|
        0 <= i < rest.len() && 0 <= j < rest.len() && i != j implies (#[trigger] rest[i]).0 != (
    #[trigger] rest[j]).0 by {
        let a = if i < at { i } else { i + 1 };
        let b = if j < at { j } else { j + 1 };
        assert(list[a].0 != list[b].0);
    }
    lemma_as_map(list);
    lemma_as_map(rest);
    let left = as_map(rest);
    let right = as_map(list).remove(list[at].0);
    assert forall|key: Seq<u8>| left.contains_key(key) <==> right.contains_key(key) by {
        if has_key(rest, key) {
            let i = choose|i: int| 0 <= i < rest.len() && (#[trigger] rest[i]).0 == key;
            let a = if i < at { i } else { i + 1 };
            assert(list[a].0 == key);
            assert(list[a].0 != list[at].0);
        }
        if right.contains_key(key) {
            let a = choose|a: int| 0 <= a < list.len() && (#[trigger] list[a]).0 == key;
            let i = if a < at { a } else { a - 1 };
            assert(rest[i].0 == key);
        }
    }
    assert forall|key: Seq<u8>| left.contains_key(key) implies left[key] == right[key] by {
        let i = choose|i: int| 0 <= i < rest.len() && (#[trigger] rest[i]).0 == key;
        let a = if i < at { i } else { i + 1 };
        assert(rest[i] == list[a]);
        assert(as_map(rest)[rest[i].0] == rest[i].1);
        assert(as_map(list)[list[a].0] == list[a].1);
    }
    assert(left =~= right);
}

/// A copy of `bytes`.
pub fn bytes_of(bytes: &[u8]) -> (copy: Vec<u8>)
    ensures
        copy@ == bytes@,
{
    slice_to_vec(bytes)
}

/// Whether two byte strings hold the same bytes.
pub fn same_bytes(a: &[u8], b: &[u8]) -> (same: bool)
    ensures
        same == (a@ == b@),
{
    if a.len() != b.len() {
        return false;
    }
    let mut i: usize = 0;
    while i < a.len()
        invariant
            a@.len() == b@.len(),
            i <= a.len(),
            a@.take(i as int) == b@.take(i as int),
        decreases a.len() - i,
    {
        if a[i] != b[i] {
            return false;
        }
        i += 1;
        proof {
            assert(a@.take(i as int) =~= a@.take(i - 1).push(a@[i - 1]));
            assert(b@.take(i as int) =~= b@.take(i - 1).push(b@[i - 1]));
        }
    }
    proof {
        assert(a@.take(a.len() as int) =~= a@);
        assert(b@.take(b.len() as int) =~= b@);
    }
    true
}

/// A mapping from keys to offsets in which no key occurs twice.
pub struct Index {
    entries: Vec<(Vec<u8>, u64)>,
}

impl View for Index {
    type V = Map<Seq<u8>, u64>;

    closed spec fn view(&self) -> Map<Seq<u8>, u64> {
        as_map(pairs(self.entries@))
    }
}

impl Index {
    #[verifier::type_invariant]
    spec fn no_key_twice(&self) -> bool {
        distinct_keys(pairs(self.entries@))
    }

    /// An index without entries.
    pub fn new() -> (index: Index)
        ensures
            index@ == Map::<Seq<u8>, u64>::empty(),
    {
        let index = Index { entries: Vec::new() };
        assert(pairs(index.entries@) =~= Seq::empty());
        index
    }

    /// Where the entry of `key` stands in the list, if it has one.
    fn position(&self, key: &[u8]) -> (found: Option<usize>)
        ensures
            match found {
                Some(at) => at < self.entries@.len() && self.entries@[at as int].0@ == key@,
                None => !self@.contains_key(key@),
            },
    {
        let mut i: usize = 0;
        while i < self.entries.len()
            invariant
                i <= self.entries@.len(),
                forall|j: int| 0 <= j < i ==> (#[trigger] self.entries@[j]).0@ != key@,
            decreases self.entries@.len() - i,
        {
            if same_bytes(self.entries[i].0.as_slice(), key) {
                return Some(i);
            }
            i += 1;
        }
        proof {
            let list = pairs(self.entries@);
            lemma_as_map(list);
            if has_key(list, key@) {
                let j = choose|j: int| 0 <= j < list.len() && (#[trigger] list[j]).0 == key@;
                assert(self.entries@[j].0@ == key@);
            }
        }
        None
    }

    /// The number of keys in the index.
    pub fn len(&self) -> (count: usize)
        ensures
            count == self@.dom().len(),
            self@.dom().finite(),
    {
        proof {
            use_type_invariant(self);
            lemma_distinct_count(pairs(self.entries@));
        }
        self.entries.len()
    }

    /// The offset that `key` is mapped to, if it is in the index.
    pub fn lookup(&self, key: &[u8]) -> (offset: Option<u64>)
        ensures
            offset == (if self@.contains_key(key@) {
                Some(self@[key@])
            } else {
                None
            }),
    {
        match self.position(key) {
            Some(at) => {
                proof {
                    use_type_invariant(self);
                    let list = pairs(self.entries@);
                    lemma_as_map(list);
                    assert(list[at as int].0 == key@);
                }
                Some(self.entries[at].1)
            },
            None => None,
        }
    }

    /// Maps `key` to `offset`, whether or not it was in the index.
    pub fn set(&mut self, key: &[u8], offset: u64)
        ensures
            final(self)@ == old(self)@.insert(key@, offset),
    {
        proof {
            use_type_invariant(&*self);
        }
        let found = self.position(key);
        let ghost before = pairs(self.entries@);
        let mut entries: Vec<(Vec<u8>, u64)> = Vec::new();
        proof {
            assert(pairs(entries@) =~= Seq::empty());
        }
        core::mem::swap(&mut self.entries, &mut entries);
        match found {
            Some(at) => {
                let entry = entries.remove(at);
                let ghost rest = pairs(entries@);
                entries.push((entry.0, offset));
                proof {
                    let list = pairs(entries@);
                    assert(rest =~= before.remove(at as int));
                    lemma_as_map_remove(before, at as int);
                    assert(list.drop_last() =~= rest);
                    assert(list.last() == (key@, offset));
                    lemma_as_map(rest);
                    lemma_push_distinct(rest, key@, offset);
                    assert(list =~= rest.push((key@, offset)));
                    assert(as_map(before).remove(key@).insert(key@, offset) =~= as_map(
                        before,
                    ).insert(key@, offset));
                }
            },
            None => {
                entries.push((slice_to_vec(key), offset));
                proof {
                    let list = pairs(entries@);
                    assert(list.drop_last() =~= before);
                    assert(list.last() == (key@, offset));
                    lemma_as_map(before);
                    lemma_push_distinct(before, key@, offset);
                    assert(list =~= before.push((key@, offset)));
                }
            },
        }
        self.entries = entries;
    }

    /// Takes `key` out of the index and gives the offset that it was mapped
    /// to, if it was in the index.
    pub fn remove(&mut self, key: &[u8]) -> (offset: Option<u64>)
        ensures
            final(self)@ == old(self)@.remove(key@),
            offset == (if old(self)@.contains_key(key@) {
                Some(old(self)@[key@])
            } else {
                None
            }),
    {
        proof {
            use_type_invariant(&*self);
        }
        let ghost before = pairs(self.entries@);
        match self.position(key) {
            Some(at) => {
                let mut entries: Vec<(Vec<u8>, u64)> = Vec::new();
                proof {
                    assert(pairs(entries@) =~= Seq::empty());
                }
                core::mem::swap(&mut self.entries, &mut entries);
                let entry = entries.remove(at);
                proof {
                    assert(pairs(entries@) =~= before.remove(at as int));
                    lemma_as_map_remove(before, at as int);
                    lemma_as_map(before);
                    assert(before[at as int].0 == key@);
                }
                self.entries = entries;
                Some(entry.1)
            },
            None => {
                proof {
                    assert(as_map(before).remove(key@) =~= as_map(before));
                }
                None
            },
        }
    }

    /// A copy of the mapping, as a list of entries without repeated keys.
    pub fn snapshot(&self) -> (mapping: Vec<(Vec<u8>, u64)>)
        ensures
            distinct_keys(pairs(mapping@)),
            as_map(pairs(mapping@)) == self@,
    {
        proof {
            use_type_invariant(self);
        }
        let mut mapping: Vec<(Vec<u8>, u64)> = Vec::new();
        let mut i: usize = 0;
        while i < self.entries.len()
            invariant
                i <= self.entries@.len(),
                mapping@.len() == i,
                pairs(mapping@) == pairs(self.entries@).take(i as int),
            decreases self.entries@.len() - i,
        {
            let ghost copied = mapping@;
            mapping.push((slice_to_vec(self.entries[i].0.as_slice()), self.entries[i].1));
            i += 1;
            proof {
                let wanted = pairs(self.entries@).take(i as int);
                assert forall|j: int| 0 <= j < wanted.len() implies pairs(mapping@)[j]
                    == wanted[j] by {
                    if j < i - 1 {
                        assert(pairs(copied)[j] == pairs(self.entries@).take(i - 1)[j]);
                    }
                }
                assert(pairs(mapping@) =~= wanted);
            }
        }
        proof {
            assert(pairs(self.entries@).take(i as int) =~= pairs(self.entries@));
        }
        mapping
    }

    /// Puts the mapping that `mapping` stands for in the place of the
    /// index's own. Where a key occurs more than once in `mapping`, its last
    /// entry counts.
    pub fn replace(&mut self, mapping: Vec<(Vec<u8>, u64)>)
        ensures
            final(self)@ == as_map(pairs(mapping@)),
    {
        self.entries = Vec::new();
        proof {
            assert(pairs(self.entries@) =~= Seq::empty());
            assert(pairs(mapping@).take(0) =~= Seq::empty());
        }
        let mut i: usize = 0;
        while i < mapping.len()
            invariant
                i <= mapping@.len(),
                self@ == as_map(pairs(mapping@).take(i as int)),
            decreases mapping@.len() - i,
        {
            self.set(mapping[i].0.as_slice(), mapping[i].1);
            i += 1;
            proof {
                let list = pairs(mapping@);
                assert(list.take(i as int).drop_last() =~= list.take(i - 1));
            }
        }
        proof {
            assert(pairs(mapping@).take(i as int) =~= pairs(mapping@));
        }
    }
}

/// Adding an entry whose key is new to a list without repeated keys leaves
/// it without repeated keys.
pub proof fn lemma_push_distinct(list: Seq<(Seq<u8>, u64)>, key: Seq<u8>, offset: u64)
    requires
        distinct_keys(list),
        !has_key(list, key),
    ensures
        distinct_keys(list.push((key, offset))),
{
    let longer = list.push((key, offset));
    assert forall|i: int, j: int|
        0 <= i < longer.len() && 0 <= j < longer.len() && i != j implies (
    #[trigger] longer[i]).0 != (#[trigger] longer[j]).0 by {
        if i < list.len() && j < list.len() {
            assert(list[i].0 != list[j].0);
        } else if i < list.len() {
            assert(list[i].0 != key);
        } else {
            assert(list[j].0 != key);
        }
    }
}

/// A list without repeated keys stands for a mapping of as many keys as it
/// has entries.
pub proof fn lemma_distinct_count(list: Seq<(Seq<u8>, u64)>)
    requires
        distinct_keys(list),
    ensures
        as_map(list).dom().finite(),
        as_map(list).dom().len() == list.len(),
    decreases list.len(),
{
    if list.len() > 0 {
        let front = list.drop_last();
        assert(distinct_keys(front)) by {
            assert forall|i: int, j: int|
                0 <= i < front.len() && 0 <= j < front.len() && i != j implies (
            #[trigger] front[i]).0 != (#[trigger] front[j]).0 by {
                assert(list[i].0 != list[j].0);
            }
        }
        lemma_distinct_count(front);
        lemma_as_map(front);
        if has_key(front, list.last().0) {
            let i = choose|i: int| 0 <= i < front.len() && (#[trigger] front[i]).0 == list.last().0;
            assert(list[i].0 == list[list.len() - 1].0);
        }
        assert(as_map(list).dom() =~= as_map(front).dom().insert(list.last().0));
    } else {
        assert(as_map(list).dom() =~= Set::empty());
    }
}

} // verus!
