use vstd::prelude::*;
use crate::text::str_eq;

verus! {

/// The offsets under which strings stand in a pool, in the order in which
/// the strings were added.
#[derive(Debug)]
pub struct StringOffsets {
    pub entries: Vec<(String, u32)>,
}

/// The map of a list of pairs; of two pairs with the same string the first
/// counts.
pub open spec fn table_map(entries: Seq<(String, u32)>) -> Map<Seq<char>, nat>
    decreases entries.len(),
{
    if entries.len() == 0 {
        Map::<Seq<char>, nat>::empty()
    } else {
        let m = table_map(entries.drop_last());
        if m.contains_key(entries.last().0@) {
            m
        } else {
            m.insert(entries.last().0@, entries.last().1 as nat)
        }
    }
}

/// A string that no pair holds is not in the map.
pub proof fn lemma_table_map_absent(entries: Seq<(String, u32)>, key: Seq<char>)
    requires
        forall|j: int| 0 <= j < entries.len() ==> (#[trigger] entries[j]).0@ != key,
    ensures
        !table_map(entries).contains_key(key),
    decreases entries.len(),
{
    if entries.len() > 0 {
        let head = entries.drop_last();
        assert forall|j: int| 0 <= j < head.len() implies (#[trigger] head[j]).0@ != key by {
            assert(head[j] == entries[j]);
        }
        lemma_table_map_absent(head, key);
        assert(entries.last() == entries[entries.len() - 1]);
    }
}

/// The map gives a string the offset of the first pair that holds it.
pub proof fn lemma_table_map_first(entries: Seq<(String, u32)>, key: Seq<char>, i: int)
    requires
        0 <= i < entries.len(),
        entries[i].0@ == key,
        forall|j: int| 0 <= j < i ==> (#[trigger] entries[j]).0@ != key,
    ensures
        table_map(entries).contains_key(key),
        table_map(entries)[key] == entries[i].1,
    decreases entries.len(),
{
    let head = entries.drop_last();
    if i == entries.len() - 1 {
        assert forall|j: int| 0 <= j < head.len() implies (#[trigger] head[j]).0@ != key by {
            assert(head[j] == entries[j]);
        }
        lemma_table_map_absent(head, key);
    } else {
        assert(head[i] == entries[i]);
        assert forall|j: int| 0 <= j < i implies (#[trigger] head[j]).0@ != key by {
            assert(head[j] == entries[j]);
        }
        lemma_table_map_first(head, key, i);
    }
}

impl View for StringOffsets {
    type V = Map<Seq<char>, nat>;

    open spec fn view(&self) -> Map<Seq<char>, nat> {
        table_map(self.entries@)
    }
}

impl StringOffsets {
    /// A table without strings.
    pub fn new() -> (t: StringOffsets)
        ensures
            t@ == Map::<Seq<char>, nat>::empty(),
    {
        StringOffsets { entries: Vec::new() }
    }

    /// The offset under `key`, if the table has the string.
    pub fn get(&self, key: &str) -> (r: Option<u32>)
        ensures
            match r {
                Some(v) => self@.contains_key(key@) && self@[key@] == v,
                None => !self@.contains_key(key@),
            },
    {
        let mut i: usize = 0;
        while i < self.entries.len()
            invariant
                i <= self.entries@.len(),
                forall|j: int| 0 <= j < i ==> (#[trigger] self.entries@[j]).0@ != key@,
            decreases self.entries@.len() - i,
        {
            if str_eq(self.entries[i].0.as_str(), key) {
                proof {
                    lemma_table_map_first(self.entries@, key@, i as int);
                }
                return Some(self.entries[i].1);
            }
            i += 1;
        }
        proof {
            lemma_table_map_absent(self.entries@, key@);
        }
        None
    }

    /// Puts `key` under `offset`, unless the table has the string already.
    pub fn insert(&mut self, key: String, offset: u32)
        ensures
            old(self)@.contains_key(key@) ==> final(self)@ == old(self)@,
            !old(self)@.contains_key(key@) ==> final(self)@ == old(self)@.insert(key@, offset as nat),
    {
        let ghost before = self.entries@;
        self.entries.push((key, offset));
        assert(self.entries@.drop_last() =~= before);
    }
}

} // verus!
