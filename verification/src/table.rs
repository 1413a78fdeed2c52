//! A table of named values, kept in the order of the names.
use crate::text;
use vstd::prelude::*;

verus! {

/// A table from names to values. The entries stand in the order of their names
/// as long as they are put in by [`Table::insert`].
#[derive(Debug)]
pub struct Table<V> {
    pub entries: Vec<(String, V)>,
}

/// The value of the first entry named `key`.
pub open spec fn lookup<V>(entries: Seq<(Seq<char>, V)>, key: Seq<char>) -> Option<V>
    decreases entries.len(),
{
    if entries.len() == 0 {
        None
    } else if entries[0].0 == key {
        Some(entries[0].1)
    } else {
        lookup(entries.skip(1), key)
    }
}

/// The entries after `value` was put in under `key`: an entry of that name is
/// replaced, else the new one goes before the first that has a larger name.
pub open spec fn put<V>(entries: Seq<(Seq<char>, V)>, key: Seq<char>, value: V) -> Seq<(Seq<char>, V)>
    decreases entries.len(),
{
    if entries.len() == 0 {
        seq![(key, value)]
    } else if entries[0].0 == key {
        entries.update(0, (key, value))
    } else if text::text_lt(key, entries[0].0) {
        seq![(key, value)] + entries
    } else {
        seq![entries[0]] + put(entries.skip(1), key, value)
    }
}

/// The entries put in one after the other, starting with none.
pub open spec fn put_all<V>(entries: Seq<(Seq<char>, V)>) -> Seq<(Seq<char>, V)>
    decreases entries.len(),
{
    if entries.len() == 0 {
        seq![]
    } else {
        put(put_all(entries.drop_last()), entries.last().0, entries.last().1)
    }
}

/// Whether the names rise strictly.
pub open spec fn sorted<V>(entries: Seq<(Seq<char>, V)>) -> bool {
    forall|i: int, j: int|
        #![trigger entries[i], entries[j]]
        0 <= i < j < entries.len() ==> text::text_lt(entries[i].0, entries[j].0)
}

/// Putting a value in gives that value back under its name and leaves what
/// stands under every other name.
pub proof fn law_lookup_after_put<V>(entries: Seq<(Seq<char>, V)>, key: Seq<char>, value: V, other: Seq<char>)
    ensures
        lookup(put(entries, key, value), other) == (if other == key {
            Some(value)
        } else {
            lookup(entries, other)
        }),
    decreases entries.len(),
{
    let after = put(entries, key, value);
    if entries.len() == 0 {
        assert(after.skip(1) =~= entries);
        assert(lookup(entries, other) is None);
        assert(lookup(after.skip(1), other) is None);
    } else if entries[0].0 == key {
        assert(after.skip(1) =~= entries.skip(1));
    } else if text::text_lt(key, entries[0].0) {
        assert(after.skip(1) =~= entries);
    } else {
        assert(after.skip(1) =~= put(entries.skip(1), key, value));
        law_lookup_after_put(entries.skip(1), key, value, other);
    }
}

/// Every name in the table after a value was put in stood there before or is
/// the new one.
proof fn lemma_put_keys<V>(entries: Seq<(Seq<char>, V)>, key: Seq<char>, value: V, i: int)
    requires
        0 <= i < put(entries, key, value).len(),
    ensures
        put(entries, key, value)[i].0 == key || exists|j: int|
            0 <= j < entries.len() && #[trigger] entries[j].0 == put(entries, key, value)[i].0,
    decreases entries.len(),
{
    let after = put(entries, key, value);
    if entries.len() == 0 {
    } else if entries[0].0 == key {
        if i > 0 {
            assert(entries[i].0 == after[i].0);
        }
    } else if text::text_lt(key, entries[0].0) {
        if i > 0 {
            assert(entries[i - 1].0 == after[i].0);
        }
    } else {
        if i == 0 {
            assert(entries[0].0 == after[0].0);
        } else {
            let rest = entries.skip(1);
            lemma_put_keys(rest, key, value, i - 1);
            if after[i].0 != key {
                let j = choose|j: int| 0 <= j < rest.len() && #[trigger] rest[j].0 == put(rest, key, value)[i - 1].0;
                assert(entries[j + 1].0 == after[i].0);
            }
        }
    }
}

/// What holds of every entry, and of a new one, holds of all after it was put in.
pub proof fn lemma_put_holds<V>(
    entries: Seq<(Seq<char>, V)>,
    key: Seq<char>,
    value: V,
    p: spec_fn((Seq<char>, V)) -> bool,
)
    requires
        forall|i: int| 0 <= i < entries.len() ==> p(#[trigger] entries[i]),
        p((key, value)),
    ensures
        forall|i: int| 0 <= i < put(entries, key, value).len() ==> p(#[trigger] put(entries, key, value)[i]),
    decreases entries.len(),
{
    let after = put(entries, key, value);
    if entries.len() == 0 {
    } else if entries[0].0 == key {
    } else if text::text_lt(key, entries[0].0) {
        assert forall|i: int| 0 <= i < after.len() implies p(#[trigger] after[i]) by {
            if i > 0 {
                assert(after[i] == entries[i - 1]);
            }
        }
    } else {
        let rest = entries.skip(1);
        assert forall|i: int| 0 <= i < rest.len() implies p(#[trigger] rest[i]) by {
            assert(rest[i] == entries[i + 1]);
        }
        lemma_put_holds(rest, key, value, p);
        assert forall|i: int| 0 <= i < after.len() implies p(#[trigger] after[i]) by {
            if i > 0 {
                assert(after[i] == put(rest, key, value)[i - 1]);
            }
        }
    }
}

/// Putting a value in keeps the names in order.
pub proof fn law_put_keeps_order<V>(entries: Seq<(Seq<char>, V)>, key: Seq<char>, value: V)
    requires
        sorted(entries),
    ensures
        sorted(put(entries, key, value)),
    decreases entries.len(),
{
    let after = put(entries, key, value);
    if entries.len() == 0 {
    } else if entries[0].0 == key {
    } else if text::text_lt(key, entries[0].0) {
        assert forall|i: int, j: int|
            #![trigger after[i], after[j]]
            0 <= i < j < after.len() implies text::text_lt(after[i].0, after[j].0) by {
            assert(after[j] == entries[j - 1]);
            if i == 0 {
                if j > 1 {
                    text::lemma_text_lt_transitive(key, entries[0].0, entries[j - 1].0);
                }
            } else {
                assert(after[i] == entries[i - 1]);
            }
        }
    } else {
        let rest = entries.skip(1);
        law_put_keeps_order(rest, key, value);
        let tail = put(rest, key, value);
        text::lemma_text_lt_total(key, entries[0].0);
        assert forall|i: int, j: int|
            #![trigger after[i], after[j]]
            0 <= i < j < after.len() implies text::text_lt(after[i].0, after[j].0) by {
            assert(after[j] == tail[j - 1]);
            if i == 0 {
                lemma_put_keys(rest, key, value, j - 1);
                if tail[j - 1].0 != key {
                    let k = choose|k: int| 0 <= k < rest.len() && #[trigger] rest[k].0 == tail[j - 1].0;
                    assert(rest[k] == entries[k + 1]);
                }
            } else {
                assert(after[i] == tail[i - 1]);
            }
        }
    }
}

/// A value whose name is above all others goes to the end.
pub proof fn lemma_put_last<V>(entries: Seq<(Seq<char>, V)>, key: Seq<char>, value: V)
    requires
        forall|i: int| 0 <= i < entries.len() ==> text::text_lt(#[trigger] entries[i].0, key),
    ensures
        put(entries, key, value) == entries.push((key, value)),
    decreases entries.len(),
{
    if entries.len() > 0 {
        text::lemma_text_lt_asymmetric(entries[0].0, key);
        let rest = entries.skip(1);
        assert forall|i: int| 0 <= i < rest.len() implies text::text_lt(#[trigger] rest[i].0, key) by {
            assert(rest[i] == entries[i + 1]);
        }
        lemma_put_last(rest, key, value);
        assert(seq![entries[0]] + rest.push((key, value)) =~= entries.push((key, value)));
    } else {
        assert(seq![(key, value)] =~= entries.push((key, value)));
    }
}

/// Entries that stand in order already are what putting them in gives.
pub proof fn lemma_put_all_sorted<V>(entries: Seq<(Seq<char>, V)>)
    requires
        sorted(entries),
    ensures
        put_all(entries) == entries,
    decreases entries.len(),
{
    if entries.len() > 0 {
        let front = entries.drop_last();
        assert(sorted(front)) by {
            assert forall|i: int, j: int|
                #![trigger front[i], front[j]]
                0 <= i < j < front.len() implies text::text_lt(front[i].0, front[j].0) by {
                assert(front[i] == entries[i]);
                assert(front[j] == entries[j]);
            }
        }
        lemma_put_all_sorted(front);
        assert forall|i: int| 0 <= i < front.len() implies text::text_lt(#[trigger] front[i].0, entries.last().0) by {
            assert(front[i] == entries[i]);
        }
        lemma_put_last(front, entries.last().0, entries.last().1);
        assert(front.push(entries.last()) =~= entries);
    } else {
        assert(entries =~= seq![]);
    }
}

impl<V> Table<V> {
    /// The entries, each name as the text that it is.
    pub open spec fn model(&self) -> Seq<(Seq<char>, V)> {
        Seq::new(self.entries@.len(), |i: int| (self.entries@[i].0@, self.entries@[i].1))
    }

    /// A table without entries.
    pub fn new() -> (r: Self)
        ensures
            r.model() == Seq::<(Seq<char>, V)>::empty(),
    {
        let r: Table<V> = Table { entries: Vec::new() };
        assert(r.model() =~= Seq::<(Seq<char>, V)>::empty());
        r
    }

    /// Puts a value in under a name, in place of the one that had it.
    pub fn insert(&mut self, key: String, value: V)
        ensures
            final(self).model() == put(old(self).model(), key@, value),
    {
        let ghost before = self.model();
        let mut i: usize = 0;
        proof {
            assert(before.skip(0) =~= before);
            assert(before.take(0) + put(before.skip(0), key@, value) =~= put(before, key@, value));
        }
        while i < self.entries.len()
            invariant
                i <= self.entries.len(),
                before == self.model(),
                before == old(self).model(),
                put(before, key@, value) == before.take(i as int) + put(before.skip(i as int), key@, value),
            decreases self.entries.len() - i,
        {
            let ghost rest = before.skip(i as int);
            if text::same(self.entries[i].0.as_str(), key.as_str()) {
                let ghost after = put(before, key@, value);
                self.entries[i] = (key, value);
                assert(self.model() =~= after);
                return;
            }
            if before_key(&key, &self.entries[i].0) {
                let ghost after = put(before, key@, value);
                self.entries.insert(i, (key, value));
                assert(self.model() =~= after);
                return;
            }
            proof {
                assert(rest.skip(1) =~= before.skip(i + 1));
                assert(before.take(i + 1) =~= before.take(i as int).push(before[i as int]));
                assert(before.take(i as int) + (seq![rest[0]] + put(rest.skip(1), key@, value))
                    =~= before.take(i + 1) + put(before.skip(i + 1), key@, value));
            }
            i += 1;
        }
        proof {
            assert(before.skip(i as int) =~= Seq::<(Seq<char>, V)>::empty());
        }
        let ghost after = put(before, key@, value);
        self.entries.push((key, value));
        assert(self.model() =~= after);
    }

    /// The value under a name.
    pub fn get(&self, key: &str) -> (r: Option<&V>)
        ensures
            match r {
                Some(v) => lookup(self.model(), key@) == Some(*v),
                None => lookup(self.model(), key@) is None,
            },
    {
        let mut i: usize = 0;
        proof {
            assert(self.model().skip(0) =~= self.model());
        }
        while i < self.entries.len()
            invariant
                i <= self.entries.len(),
                lookup(self.model(), key@) == lookup(self.model().skip(i as int), key@),
            decreases self.entries.len() - i,
        {
            let ghost rest = self.model().skip(i as int);
            if text::same(self.entries[i].0.as_str(), key) {
                return Some(&self.entries[i].1);
            }
            proof {
                assert(rest.skip(1) =~= self.model().skip(i + 1));
            }
            i += 1;
        }
        None
    }

    /// Whether there is a value under a name.
    pub fn contains_key(&self, key: &str) -> (r: bool)
        ensures
            r == (lookup(self.model(), key@) is Some),
    {
        self.get(key).is_some()
    }
}

fn before_key(a: &String, b: &String) -> (r: bool)
    ensures
        r == text::text_lt(a@, b@),
{
    text::before(a.as_str(), b.as_str())
}

/// A name is looked up to the value of the first entry that has it.
pub proof fn law_lookup_finds_the_first<V>(entries: Seq<(Seq<char>, V)>, key: Seq<char>, i: int)
    requires
        0 <= i < entries.len(),
        entries[i].0 == key,
        forall|j: int| 0 <= j < i ==> (#[trigger] entries[j]).0 != key,
    ensures
        lookup(entries, key) == Some(entries[i].1),
    decreases i,
{
    if i > 0 {
        assert(entries[0].0 != key);
        let rest = entries.skip(1);
        assert forall|j: int| 0 <= j < i - 1 implies (#[trigger] rest[j]).0 != key by {
            assert(rest[j] == entries[j + 1]);
        }
        law_lookup_finds_the_first(rest, key, i - 1);
    }
}

/// A name that no entry has is not found.
pub proof fn law_lookup_finds_nothing_else<V>(entries: Seq<(Seq<char>, V)>, key: Seq<char>)
    requires
        forall|j: int| 0 <= j < entries.len() ==> (#[trigger] entries[j]).0 != key,
    ensures
        lookup(entries, key) is None,
    decreases entries.len(),
{
    if entries.len() > 0 {
        assert(entries[0].0 != key);
        let rest = entries.skip(1);
        assert forall|j: int| 0 <= j < rest.len() implies (#[trigger] rest[j]).0 != key by {
            assert(rest[j] == entries[j + 1]);
        }
        law_lookup_finds_nothing_else(rest, key);
    }
}

/// What was found stands in an entry of that name.
pub proof fn law_what_is_found_is_there<V>(entries: Seq<(Seq<char>, V)>, key: Seq<char>) -> (i: int)
    requires
        lookup(entries, key) is Some,
    ensures
        0 <= i < entries.len(),
        entries[i] == (key, lookup(entries, key)->0),
        forall|j: int| 0 <= j < i ==> (#[trigger] entries[j]).0 != key,
    decreases entries.len(),
{
    if entries[0].0 == key {
        0
    } else {
        let rest = entries.skip(1);
        let i = law_what_is_found_is_there(rest, key);
        assert(entries[i + 1] == rest[i]);
        assert forall|j: int| 0 <= j < i + 1 implies (#[trigger] entries[j]).0 != key by {
            if j > 0 {
                assert(rest[j - 1] == entries[j]);
            }
        }
        i + 1
    }
}

/// Putting a value in makes the table longer by one entry where its name is new, and else
/// by none.
pub proof fn law_put_adds_at_most_one<V>(entries: Seq<(Seq<char>, V)>, key: Seq<char>, value: V)
    requires
        sorted(entries),
    ensures
        lookup(entries, key) is None ==> put(entries, key, value).len() == entries.len() + 1,
        lookup(entries, key) is Some ==> put(entries, key, value).len() == entries.len(),
    decreases entries.len(),
{
    if entries.len() > 0 && entries[0].0 != key {
        let rest = entries.skip(1);
        assert forall|i: int, j: int|
            #![trigger rest[i], rest[j]]
            0 <= i < j < rest.len() implies text::text_lt(rest[i].0, rest[j].0) by {
            assert(rest[i] == entries[i + 1] && rest[j] == entries[j + 1]);
        }
        if text::text_lt(key, entries[0].0) {
            assert forall|j: int| 0 <= j < entries.len() implies (#[trigger] entries[j]).0 != key by {
                if j > 0 {
                    text::lemma_text_lt_transitive(key, entries[0].0, entries[j].0);
                }
                text::lemma_text_lt_asymmetric(key, entries[j].0);
            }
            law_lookup_finds_nothing_else(entries, key);
        } else {
            law_put_adds_at_most_one(rest, key, value);
        }
    }
}

/// Entries that were put in one after the other stand in order, whatever their order was.
pub proof fn law_put_all_is_in_order<V>(entries: Seq<(Seq<char>, V)>)
    ensures
        sorted(put_all(entries)),
    decreases entries.len(),
{
    if entries.len() > 0 {
        law_put_all_is_in_order(entries.drop_last());
        law_put_keeps_order(put_all(entries.drop_last()), entries.last().0, entries.last().1);
    }
}

/// The model of a table has every entry at its place.
pub proof fn law_model_of_a_table<V>(t: Table<V>, i: int)
    ensures
        t.model().len() == t.entries@.len(),
        0 <= i < t.entries@.len() ==> t.model()[i] == (t.entries@[i].0@, t.entries@[i].1),
{
}

}
