//! The header fields of a request: a map from names to values.

use crate::text::same_text;
use vstd::prelude::*;

verus! {

/// Header fields by name. Names are kept as written and compared exactly;
/// a name that is set again takes the new value.
#[derive(Debug)]
pub struct Headers {
    entries: Vec<(String, String)>,
}

/// Whether some entry carries `name`.
spec fn has_name(entries: Seq<(String, String)>, name: Seq<char>) -> bool {
    exists|i: int| 0 <= i < entries.len() && (#[trigger] entries[i]).0@ == name
}

/// The place of an entry that carries `name`.
spec fn place_of(entries: Seq<(String, String)>, name: Seq<char>) -> int {
    choose|i: int| 0 <= i < entries.len() && (#[trigger] entries[i]).0@ == name
}

/// No two entries carry the same name.
spec fn distinct_names(entries: Seq<(String, String)>) -> bool {
    forall|i: int, j: int|
        0 <= i < j < entries.len() ==> (#[trigger] entries[i]).0@ != (#[trigger] entries[j]).0@
}

/// The map that a list of entries with distinct names stands for.
spec fn map_of(entries: Seq<(String, String)>) -> Map<Seq<char>, Seq<char>> {
    Map::new(
        |name: Seq<char>| has_name(entries, name),
        |name: Seq<char>| entries[place_of(entries, name)].1@,
    )
}

/// With distinct names, the entry at `i` is the one that the map holds for its name.
proof fn lemma_entry_in_map(entries: Seq<(String, String)>, i: int)
    requires
        distinct_names(entries),
        0 <= i < entries.len(),
    ensures
        map_of(entries).contains_key(entries[i].0@),
        map_of(entries)[entries[i].0@] == entries[i].1@,
        place_of(entries, entries[i].0@) == i,
{
    let name = entries[i].0@;
    assert(has_name(entries, name));
    let j = place_of(entries, name);
    assert(0 <= j < entries.len() && entries[j].0@ == name);
    if j < i {
        assert(entries[j].0@ != entries[i].0@);
    } else if i < j {
        assert(entries[i].0@ != entries[j].0@);
    }
}

/// Writing one entry, over an old one of the same name or as a new last one,
/// changes the map at that entry's name and nowhere else.
proof fn lemma_map_after_write(
    before: Seq<(String, String)>,
    after: Seq<(String, String)>,
    i: int,
)
    requires
        distinct_names(before),
        distinct_names(after),
        0 <= i < after.len(),
        before.len() <= after.len() <= before.len() + 1,
        i < before.len() ==> after.len() == before.len() && after[i].0@ == before[i].0@,
        forall|j: int| 0 <= j < before.len() && j != i ==> #[trigger] after[j] == before[j],
    ensures
        map_of(after) == map_of(before).insert(after[i].0@, after[i].1@),
{
    let key = after[i].0@;
    let val = after[i].1@;
    let wanted = map_of(before).insert(key, val);
    assert forall|k: Seq<char>| #[trigger] map_of(after).contains_key(k) == wanted.contains_key(k) by {
        if has_name(after, k) {
            let j = place_of(after, k);
            if j != i {
                assert(before[j].0@ == k);
            }
        }
        if has_name(before, k) {
            let j = place_of(before, k);
            assert(after[j].0@ == k);
        }
        assert(has_name(after, key));
    }
    assert forall|k: Seq<char>| #[trigger] map_of(after).contains_key(k) implies map_of(after)[k]
        == wanted[k] by {
        let j = place_of(after, k);
        lemma_entry_in_map(after, j);
        if j != i {
            assert(before[j] == after[j]);
            lemma_entry_in_map(before, j);
            assert(k != key);
        }
    }
    assert(map_of(after) =~= wanted);
}

impl View for Headers {
    type V = Map<Seq<char>, Seq<char>>;

    closed spec fn view(&self) -> Map<Seq<char>, Seq<char>> {
        map_of(self.entries@)
    }
}

impl Headers {
    #[verifier::type_invariant]
    spec fn names_are_distinct(&self) -> bool {
        distinct_names(self.entries@)
    }

    /// No header fields.
    pub fn new() -> (r: Headers)
        ensures
            r@ == Map::<Seq<char>, Seq<char>>::empty(),
    {
        let r = Headers { entries: Vec::new() };
        assert(r@ =~= Map::<Seq<char>, Seq<char>>::empty());
        r
    }

    /// Where `name` stands among the entries.
    fn position(&self, name: &str) -> (r: Option<usize>)
        ensures
            match r {
                Some(i) => i < self.entries@.len() && self.entries@[i as int].0@ == name@,
                None => !has_name(self.entries@, name@),
            },
    {
        let mut i: usize = 0;
        while i < self.entries.len()
            invariant
                i <= self.entries@.len(),
                forall|j: int| 0 <= j < i ==> (#[trigger] self.entries@[j]).0@ != name@,
            decreases self.entries@.len() - i,
        {
            if same_text(self.entries[i].0.as_str(), name) {
                return Some(i);
            }
            i = i + 1;
        }
        None
    }

    /// The value of the field `name`, if the field is there.
    pub fn get(&self, name: &str) -> (r: Option<&str>)
        ensures
            match r {
                Some(value) => self@.contains_key(name@) && self@[name@] == value@,
                None => !self@.contains_key(name@),
            },
    {
        proof {
            use_type_invariant(self);
        }
        match self.position(name) {
            Some(i) => {
                proof {
                    lemma_entry_in_map(self.entries@, i as int);
                }
                Some(self.entries[i].1.as_str())
            },
            None => None,
        }
    }

    /// Whether the field `name` is there.
    pub fn contains(&self, name: &str) -> (r: bool)
        ensures
            r == self@.contains_key(name@),
    {
        self.get(name).is_some()
    }

    /// Sets the field `name` to `value`, in place of any value it had.
    pub fn insert(&mut self, name: String, value: String)
        ensures
            final(self)@ == old(self)@.insert(name@, value@),
    {
        proof {
            use_type_invariant(&*self);
        }
        let ghost before = self.entries@;
        let place = self.position(name.as_str());
        let mut entries: Vec<(String, String)> = Vec::new();
        std::mem::swap(&mut self.entries, &mut entries);
        match place {
            Some(i) => {
                entries[i] = (name, value);
            },
            None => {
                entries.push((name, value));
            },
        }
        proof {
            let after = entries@;
            let i = if place is Some { place.unwrap() as int } else { before.len() as int };
            assert(distinct_names(after)) by {
                assert forall|a: int, b: int| 0 <= a < b < after.len() implies (
                #[trigger] after[a]).0@ != (#[trigger] after[b]).0@ by {
                    if a < before.len() {
                        assert(after[a].0@ == before[a].0@);
                    }
                    if b < before.len() {
                        assert(after[b].0@ == before[b].0@);
                    }
                }
            }
            lemma_map_after_write(before, after, i);
        }
        self.entries = entries;
    }
}

impl Headers {
    /// Whether every field of `other` is a field of `self`, with the same value.
    pub fn includes(&self, other: &Headers) -> (r: bool)
        ensures
            r == other@.submap_of(self@),
    {
        proof {
            use_type_invariant(self);
            use_type_invariant(other);
        }
        let mut i: usize = 0;
        while i < other.entries.len()
            invariant
                i <= other.entries@.len(),
                distinct_names(other.entries@),
                forall|j: int|
                    0 <= j < i ==> {
                        &&& self@.contains_key((#[trigger] other.entries@[j]).0@)
                        &&& self@[other.entries@[j].0@] == other.entries@[j].1@
                    },
            decreases other.entries@.len() - i,
        {
            proof {
                lemma_entry_in_map(other.entries@, i as int);
            }
            let same = match self.get(other.entries[i].0.as_str()) {
                Some(value) => same_text(value, other.entries[i].1.as_str()),
                None => false,
            };
            if !same {
                return false;
            }
            i = i + 1;
        }
        proof {
            assert forall|k: Seq<char>| #[trigger] other@.contains_key(k) implies self@.contains_key(k)
                && self@[k] == other@[k] by {
                let j = place_of(other.entries@, k);
                lemma_entry_in_map(other.entries@, j);
            }
        }
        true
    }
}

impl PartialEq for Headers {
    fn eq(&self, other: &Self) -> (r: bool) {
        let r = self.includes(other) && other.includes(self);
        proof {
            if r {
                assert(self@ =~= other@);
            }
        }
        r
    }
}

impl vstd::std_specs::cmp::PartialEqSpecImpl for Headers {
    open spec fn obeys_eq_spec() -> bool {
        true
    }

    open spec fn eq_spec(&self, other: &Self) -> bool {
        self@ == other@
    }
}

} // verus!
