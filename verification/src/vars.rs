//! The variable bindings of one parse: a name-to-text mapping where the
//! last assignment to a name wins.

use vstd::prelude::*;

verus! {

/// The mapping that a sequence of (name, value) bindings denotes:
/// later entries overwrite earlier ones.
pub open spec fn map_of(entries: Seq<(String, String)>) -> Map<Seq<char>, Seq<char>>
    decreases entries.len(),
{
    if entries.len() == 0 {
        Map::empty()
    } else {
        map_of(entries.drop_last()).insert(entries.last().0@, entries.last().1@)
    }
}

/// If no entry at or after `i` has key `k`, the entries before `i` decide `k`.
proof fn lemma_map_of_unmatched_suffix(entries: Seq<(String, String)>, i: int, k: Seq<char>)
    requires
        0 <= i <= entries.len(),
        forall|j: int| i <= j < entries.len() ==> entries[j].0@ != k,
    ensures
        map_of(entries).contains_key(k) == map_of(entries.take(i)).contains_key(k),
        map_of(entries).contains_key(k) ==> map_of(entries)[k] == map_of(entries.take(i))[k],
    decreases entries.len() - i,
{
    if i < entries.len() {
        lemma_map_of_unmatched_suffix(entries, i + 1, k);
        assert(entries.take(i + 1).drop_last() =~= entries.take(i));
        assert(entries.take(i + 1).last() == entries[i]);
    } else {
        assert(entries.take(i) =~= entries);
    }
}

/// The variable bindings of one parse.
pub struct VarMap {
    entries: Vec<(String, String)>,
}

impl View for VarMap {
    type V = Map<Seq<char>, Seq<char>>;

    closed spec fn view(&self) -> Map<Seq<char>, Seq<char>> {
        map_of(self.entries@)
    }
}

impl VarMap {
    /// An empty mapping.
    pub fn new() -> (m: VarMap)
        ensures
            m@ == Map::<Seq<char>, Seq<char>>::empty(),
    {
        VarMap { entries: Vec::new() }
    }

    /// Bind `name` to `value`, overwriting any earlier binding.
    pub fn insert(&mut self, name: String, value: String)
        ensures
            final(self)@ == old(self)@.insert(name@, value@),
    {
        let ghost pre = self.entries@;
        let ghost k = name@;
        let ghost v = value@;
        self.entries.push((name, value));
        proof {
            assert(self.entries@.drop_last() =~= pre);
            assert(self.entries@.last().0@ == k);
            assert(self.entries@.last().1@ == v);
        }
    }

    /// Look up the current binding of `name`.
    pub fn get(&self, name: &String) -> (r: Option<&String>)
        ensures
            match r {
                Option::Some(v) => self@.contains_key(name@) && v@ == self@[name@],
                Option::None => !self@.contains_key(name@),
            },
    {
        let n = self.entries.len();
        let mut i = n;
        while i > 0
            invariant
                0 <= i <= n,
                n == self.entries@.len(),
                forall|j: int| i <= j < n ==> self.entries@[j].0@ != name@,
            decreases i,
        {
            i = i - 1;
            if self.entries[i].0 == *name {
                proof {
                    lemma_map_of_unmatched_suffix(self.entries@, i + 1, name@);
                    assert(self.entries@.take(i + 1).drop_last() =~= self.entries@.take(i as int));
                    assert(self.entries@.take(i + 1).last() == self.entries@[i as int]);
                }
                return Option::Some(&self.entries[i].1);
            }
        }
        proof {
            lemma_map_of_unmatched_suffix(self.entries@, 0, name@);
            assert(self.entries@.take(0) =~= Seq::<(String, String)>::empty());
        }
        Option::None
    }
}

} // verus!
