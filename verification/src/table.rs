//! Maps from names, walked in the order of the names.

use crate::order::{self, text_le};
use crate::text::same;
use vstd::prelude::*;

verus! {

/// A map from names to values. Its names are walked in their order.
#[derive(Debug)]
pub struct TextMap<V> {
    entries: Vec<(String, V)>,
}

/// Whether `name` is that of the entry at `i`.
spec fn named<V>(entries: Seq<(String, V)>, name: Seq<char>, i: int) -> bool {
    0 <= i < entries.len() && entries[i].0@ == name
}

spec fn has_name<V>(entries: Seq<(String, V)>, name: Seq<char>) -> bool {
    exists|i: int| named(entries, name, i)
}

impl<V> TextMap<V> {
    /// Whether the names stand in their order, none of them twice. It holds of every map.
    #[verifier::type_invariant]
    pub closed spec fn ordered(self) -> bool {
        strictly_ordered(self.entries@)
    }

    /// The names in their order.
    pub closed spec fn keys(self) -> Seq<Seq<char>> {
        Seq::new(self.entries@.len(), |i: int| self.entries@[i].0@)
    }

    pub closed spec fn map(self) -> Map<Seq<char>, V> {
        Map::new(
            |name: Seq<char>| has_name(self.entries@, name),
            |name: Seq<char>|
                self.entries@[choose|i: int| named(self.entries@, name, i)].1,
        )
    }

    /// The map that holds nothing.
    pub fn new() -> (r: Self)
        ensures
            r@ == Map::<Seq<char>, V>::empty(),
            r.keys() == Seq::<Seq<char>>::empty(),
            r.ordered(),
    {
        let r = TextMap { entries: Vec::new() };
        assert(r@ =~= Map::<Seq<char>, V>::empty());
        assert(r.keys() =~= Seq::<Seq<char>>::empty());
        r
    }

    /// How many names there are.
    pub fn len(&self) -> (r: usize)
        ensures
            r == self.keys().len(),
    {
        self.entries.len()
    }

    /// The name at `i`.
    pub fn key(&self, i: usize) -> (r: &String)
        requires
            i < self.keys().len(),
        ensures
            r@ == self.keys()[i as int],
    {
        &self.entries[i].0
    }

    /// The value of the name at `i`.
    pub fn value(&self, i: usize) -> (r: &V)
        requires
            i < self.keys().len(),
        ensures
            self@.contains_key(self.keys()[i as int]),
            *r == self@[self.keys()[i as int]],
    {
        proof {
            use_type_invariant(self);
            lemma_named(self.entries@, i as int);
        }
        &self.entries[i].1
    }

    /// Where a name stands in the order of the names.
    fn place(&self, name: &str) -> (r: usize)
        ensures
            r <= self.entries@.len(),
            forall|i: int|
                0 <= i < r ==> text_le(#[trigger] self.entries@[i].0@, name@)
                    && self.entries@[i].0@ != name@,
            r < self.entries@.len() ==> text_le(name@, self.entries@[r as int].0@),
    {
        let mut i: usize = 0;
        while i < self.entries.len() && !order::not_after(name, &self.entries[i].0)
            invariant
                i <= self.entries@.len(),
                forall|j: int|
                    0 <= j < i ==> text_le(#[trigger] self.entries@[j].0@, name@)
                        && self.entries@[j].0@ != name@,
            decreases self.entries@.len() - i,
        {
            proof {
                order::lemma_text_le_total(name@, self.entries@[i as int].0@);
            }
            i += 1;
        }
        i
    }

    /// The value of a name.
    pub fn get(&self, name: &str) -> (r: Option<&V>)
        ensures
            r is Some <==> self@.contains_key(name@),
            r matches Some(value) ==> *value == self@[name@],
    {
        let i = self.place(name);
        proof {
            use_type_invariant(self);
        }
        if i < self.entries.len() && same(&self.entries[i].0, name) {
            proof {
                lemma_named(self.entries@, i as int);
            }
            Some(&self.entries[i].1)
        } else {
            proof {
                lemma_absent(self.entries@, name@, i as int);
            }
            None
        }
    }

    /// Whether a name has a value.
    pub fn has(&self, name: &str) -> (r: bool)
        ensures
            r == self@.contains_key(name@),
    {
        self.get(name).is_some()
    }

    /// The map in which `name` has the value `value`, and every other name the value it had.
    pub fn with(self, name: String, value: V) -> (r: Self)
        ensures
            r@ == self@.insert(name@, value),
            r.ordered(),
    {
        let i = self.place(&name);
        proof {
            use_type_invariant(&self);
        }
        let ghost before = self.entries@;
        let ghost old_map = self@;
        let ghost name_text = name@;
        let mut entries = self.entries;
        if i < entries.len() && same(&entries[i].0, &name) {
            entries.set(i, (name, value));
            proof {
                assert(strictly_ordered(entries@));
                assert forall|k: Seq<char>|
                    has_name(before, k) <==> #[trigger] has_name(entries@, k) by {
                    if has_name(before, k) {
                        let j = choose|j: int| named(before, k, j);
                        assert(named(entries@, k, j));
                    }
                    if has_name(entries@, k) {
                        let j = choose|j: int| named(entries@, k, j);
                        assert(named(before, k, j));
                    }
                }
            }
        } else {
            proof {
                lemma_absent(before, name_text, i as int);
            }
            entries.insert(i, (name, value));
            proof {
                lemma_inserted(before, entries@, i as int);
                assert forall|k: Seq<char>|
                    has_name(before, k) || k == name_text <==> #[trigger] has_name(entries@, k) by {
                    if has_name(before, k) {
                        let j = choose|j: int| named(before, k, j);
                        let moved = if j < i {
                            j
                        } else {
                            j + 1
                        };
                        assert(named(entries@, k, moved));
                    }
                    if k == name_text {
                        assert(named(entries@, k, i as int));
                    }
                    if has_name(entries@, k) {
                        let j = choose|j: int| named(entries@, k, j);
                        if j < i {
                            assert(named(before, k, j));
                        } else if j > i {
                            assert(named(before, k, j - 1));
                        }
                    }
                }
            }
        }
        let r = TextMap { entries };
        proof {
            assert forall|k: Seq<char>| #[trigger]
                r@.contains_key(k) <==> old_map.insert(name_text, value).contains_key(k) by {
                assert(r@.contains_key(k) == has_name(r.entries@, k));
                assert(old_map.contains_key(k) == has_name(before, k));
                if k == name_text && r.entries@.len() == before.len() {
                    assert(named(r.entries@, k, i as int));
                }
            }
            assert forall|k: Seq<char>|
                r@.contains_key(k) implies #[trigger] r@[k] == old_map.insert(
                name_text,
                value,
            )[k] by {
                let j = choose|j: int| named(r.entries@, k, j);
                lemma_named(r.entries@, j);
                if k == name_text {
                    assert(named(r.entries@, k, i as int));
                    lemma_unique(r.entries@, i as int, j);
                } else {
                    let back = if r.entries@.len() == before.len() || j < i {
                        j
                    } else {
                        j - 1
                    };
                    assert(j != i);
                    assert(before[back] == r.entries@[j]);
                    lemma_named(before, back);
                }
            }
            assert(r@ =~= old_map.insert(name_text, value));
        }
        r
    }
}

impl<V> View for TextMap<V> {
    type V = Map<Seq<char>, V>;

    open spec fn view(&self) -> Map<Seq<char>, V> {
        self.map()
    }
}

spec fn strictly_ordered<V>(entries: Seq<(String, V)>) -> bool {
    forall|i: int, j: int|
        0 <= i < j < entries.len() ==> text_le(
            #[trigger] entries[i].0@,
            #[trigger] entries[j].0@,
        ) && entries[i].0@ != entries[j].0@
}

proof fn lemma_unique<V>(entries: Seq<(String, V)>, i: int, j: int)
    requires
        strictly_ordered(entries),
        0 <= i < entries.len(),
        0 <= j < entries.len(),
        entries[i].0@ == entries[j].0@,
    ensures
        i == j,
{
    if i < j {
        assert(entries[i].0@ != entries[j].0@);
    }
    if j < i {
        assert(entries[j].0@ != entries[i].0@);
    }
}

proof fn lemma_named<V>(entries: Seq<(String, V)>, i: int)
    requires
        strictly_ordered(entries),
        0 <= i < entries.len(),
    ensures
        named(entries, entries[i].0@, i),
        (choose|j: int| named(entries, entries[i].0@, j)) == i,
{
    let name = entries[i].0@;
    assert(named(entries, name, i));
    let j = choose|j: int| named(entries, name, j);
    lemma_unique(entries, i, j);
}

proof fn lemma_absent<V>(entries: Seq<(String, V)>, name: Seq<char>, at: int)
    requires
        strictly_ordered(entries),
        0 <= at <= entries.len(),
        forall|i: int| 0 <= i < at ==> #[trigger] entries[i].0@ != name,
        at < entries.len() ==> text_le(name, entries[at].0@) && entries[at].0@ != name,
    ensures
        !has_name(entries, name),
{
    if has_name(entries, name) {
        let i = choose|i: int| named(entries, name, i);
        assert(i > at);
        order::lemma_text_le_antisym(name, entries[at].0@);
    }
}

proof fn lemma_inserted<V>(before: Seq<(String, V)>, after: Seq<(String, V)>, at: int)
    requires
        strictly_ordered(before),
        0 <= at <= before.len(),
        after.len() == before.len() + 1,
        after == before.insert(at, after[at]),
        forall|i: int|
            0 <= i < at ==> text_le(#[trigger] before[i].0@, after[at].0@) && before[i].0@
                != after[at].0@,
        at < before.len() ==> text_le(after[at].0@, before[at].0@) && before[at].0@
            != after[at].0@,
    ensures
        strictly_ordered(after),
{
    let name = after[at].0@;
    assert forall|i: int, j: int| 0 <= i < j < after.len() implies text_le(
        #[trigger] after[i].0@,
        #[trigger] after[j].0@,
    ) && after[i].0@ != after[j].0@ by {
        if i < at {
            assert(after[i] == before[i]);
        } else if i > at {
            assert(after[i] == before[i - 1]);
        }
        if j < at {
            assert(after[j] == before[j]);
        } else if j > at {
            assert(after[j] == before[j - 1]);
        }
        if i == at {
            if j - 1 > at {
                order::lemma_text_le_trans(name, before[at].0@, before[j - 1].0@);
                if before[j - 1].0@ == name {
                    order::lemma_text_le_antisym(name, before[at].0@);
                }
            }
        }
    }
}

/// The names of a map stand in their order, none of them twice, and are those that have a value.
pub proof fn law_names_in_order<V>(map: TextMap<V>)
    requires
        map.ordered(),
    ensures
        forall|i: int, j: int|
            0 <= i < j < map.keys().len() ==> text_le(
                #[trigger] map.keys()[i],
                #[trigger] map.keys()[j],
            ) && map.keys()[i] != map.keys()[j],
        forall|name: Seq<char>| #[trigger] map.keys().contains(name) <==> map@.contains_key(name),
{
    assert forall|name: Seq<char>| #[trigger] map.keys().contains(name) <==> map@.contains_key(
        name,
    ) by {
        if map.keys().contains(name) {
            let i = choose|i: int| 0 <= i < map.keys().len() && map.keys()[i] == name;
            assert(named(map.entries@, name, i));
        }
        if map@.contains_key(name) {
            let i = choose|i: int| named(map.entries@, name, i);
            assert(map.keys()[i] == name);
        }
    }
}

} // verus!
