//! Tables: values under names, in the order in which the names came.

use vstd::prelude::*;

use crate::text;

verus! {

/// No key occurs twice.
pub open spec fn distinct_keys<T>(entries: Seq<(Seq<char>, T)>) -> bool {
    forall|i: int, j: int|
        0 <= i < j < entries.len() ==> (#[trigger] entries[i]).0 != (#[trigger] entries[j]).0
}

/// The keys of entries, in order.
pub open spec fn keys_of<T>(entries: Seq<(Seq<char>, T)>) -> Seq<Seq<char>> {
    Seq::new(entries.len(), |i: int| entries[i].0)
}

/// Entries with as many different keys as there are of them have distinct keys.
pub proof fn as_many_keys_are_distinct<T>(entries: Seq<(Seq<char>, T)>)
    requires
        keys_of(entries).to_set().len() == entries.len(),
    ensures
        distinct_keys(entries),
{
    let keys = keys_of(entries);
    keys.lemma_no_dup_set_cardinality();
    assert forall|i: int, j: int| 0 <= i < j < entries.len() implies (#[trigger] entries[i]).0 != (
    #[trigger] entries[j]).0 by {
        assert(keys[i] != keys[j]);
    }
}

/// The value under a key.
pub open spec fn lookup<T>(entries: Seq<(Seq<char>, T)>, key: Seq<char>) -> Option<T>
    decreases entries.len(),
{
    if entries.len() == 0 {
        None
    } else if entries[0].0 == key {
        Some(entries[0].1)
    } else {
        lookup(entries.skip(1), key)
    }
}

/// The entries with `value` under `key`: in the place of the value that stood
/// there, or else at the end.
pub open spec fn put<T>(entries: Seq<(Seq<char>, T)>, key: Seq<char>, value: T) -> Seq<
    (Seq<char>, T),
>
    decreases entries.len(),
{
    if entries.len() == 0 {
        seq![(key, value)]
    } else if entries[0].0 == key {
        seq![(key, value)] + entries.skip(1)
    } else {
        seq![entries[0]] + put(entries.skip(1), key, value)
    }
}

/// The entries of `from`, put one by one into `entries`.
pub open spec fn put_all<T>(
    entries: Seq<(Seq<char>, T)>,
    from: Seq<(Seq<char>, T)>,
) -> Seq<(Seq<char>, T)>
    decreases from.len(),
{
    if from.len() == 0 {
        entries
    } else {
        put(put_all(entries, from.drop_last()), from.last().0, from.last().1)
    }
}

/// A value that was put is found again, and those under other keys stay as they
/// were.
pub proof fn lookup_after_put<T>(
    entries: Seq<(Seq<char>, T)>,
    key: Seq<char>,
    value: T,
    other: Seq<char>,
)
    ensures
        lookup(put(entries, key, value), key) == Some(value),
        other != key ==> lookup(put(entries, key, value), other) == lookup(entries, other),
    decreases entries.len(),
{
    let after = put(entries, key, value);
    if entries.len() == 0 {
        assert(after.skip(1) =~= entries);
    } else if entries[0].0 == key {
        assert(after.skip(1) =~= entries.skip(1));
    } else {
        lookup_after_put(entries.skip(1), key, value, other);
        assert(after.skip(1) =~= put(entries.skip(1), key, value));
    }
}

/// A key is found exactly when it occurs.
pub proof fn lookup_finds<T>(entries: Seq<(Seq<char>, T)>, key: Seq<char>)
    ensures
        lookup(entries, key) is Some <==> exists|i: int|
            0 <= i < entries.len() && (#[trigger] entries[i]).0 == key,
        lookup(entries, key) matches Some(v) ==> exists|i: int|
            0 <= i < entries.len() && #[trigger] entries[i] == (key, v),
    decreases entries.len(),
{
    if entries.len() > 0 {
        let rest = entries.skip(1);
        lookup_finds(rest, key);
        if entries[0].0 == key {
            assert(entries[0] == (key, entries[0].1));
        } else {
            if lookup(rest, key) is Some {
                let v = lookup(rest, key)->0;
                let i = choose|i: int| 0 <= i < rest.len() && #[trigger] rest[i] == (key, v);
                assert(entries[i + 1] == (key, v));
            }
            if exists|i: int| 0 <= i < entries.len() && (#[trigger] entries[i]).0 == key {
                let i = choose|i: int| 0 <= i < entries.len() && (#[trigger] entries[i]).0 == key;
                assert(rest[i - 1].0 == key);
            }
        }
    }
}

/// Where keys are distinct, each is found with its own value.
pub proof fn lookup_at<T>(entries: Seq<(Seq<char>, T)>, i: int)
    requires
        distinct_keys(entries),
        0 <= i < entries.len(),
    ensures
        lookup(entries, entries[i].0) == Some(entries[i].1),
    decreases entries.len(),
{
    if i > 0 {
        assert(entries[0].0 != entries[i].0);
        let rest = entries.skip(1);
        assert forall|a: int, b: int| 0 <= a < b < rest.len() implies (#[trigger] rest[a]).0 != (
        #[trigger] rest[b]).0 by {
            assert(entries[a + 1].0 != entries[b + 1].0);
        }
        lookup_at(rest, i - 1);
    }
}

/// Putting changes no key and adds at most the one that is put.
pub proof fn put_keys<T>(entries: Seq<(Seq<char>, T)>, key: Seq<char>, value: T)
    ensures
        put(entries, key, value).len() == if lookup(entries, key) is Some {
            entries.len()
        } else {
            entries.len() + 1
        },
        forall|i: int|
            0 <= i < entries.len() ==> (#[trigger] put(entries, key, value)[i]).0 == entries[i].0,
        forall|i: int|
            0 <= i < entries.len() && entries[i].0 != key ==> #[trigger] put(
                entries,
                key,
                value,
            )[i] == entries[i],
        lookup(entries, key) is None ==> put(entries, key, value) == entries.push((key, value)),
    decreases entries.len(),
{
    let after = put(entries, key, value);
    if entries.len() == 0 {
        assert(after =~= entries.push((key, value)));
    } else if entries[0].0 != key {
        let rest = entries.skip(1);
        put_keys(rest, key, value);
        assert forall|i: int| 0 <= i < entries.len() implies (#[trigger] after[i]).0
            == entries[i].0 && (entries[i].0 != key ==> after[i] == entries[i]) by {
            if i > 0 {
                assert(after[i] == put(rest, key, value)[i - 1]);
                assert(rest[i - 1] == entries[i]);
            }
        }
        if lookup(entries, key) is None {
            assert(after =~= entries.push((key, value)));
        }
    }
}

/// Putting keeps the keys distinct.
pub proof fn put_keeps_distinct<T>(entries: Seq<(Seq<char>, T)>, key: Seq<char>, value: T)
    requires
        distinct_keys(entries),
    ensures
        distinct_keys(put(entries, key, value)),
{
    let after = put(entries, key, value);
    put_keys(entries, key, value);
    lookup_finds(entries, key);
    assert forall|i: int, j: int| 0 <= i < j < after.len() implies (#[trigger] after[i]).0 != (
    #[trigger] after[j]).0 by {
        if j < entries.len() {
            assert(entries[i].0 != entries[j].0);
        } else {
            assert(entries[i].0 != key);
        }
    }
}

/// A table of values under names. No name occurs twice.
#[derive(Debug)]
pub struct Table<T> {
    entries: Vec<(String, T)>,
}

impl<T> View for Table<T> {
    type V = Seq<(Seq<char>, T)>;

    closed spec fn view(&self) -> Seq<(Seq<char>, T)> {
        Seq::new(self.entries@.len(), |i: int| (self.entries@[i].0@, self.entries@[i].1))
    }
}

impl Table<String> {
    /// Puts the entries of another table into this one.
    pub fn extend(&mut self, from: &Table<String>)
        ensures
            texts_under(final(self)@) == put_all(texts_under(old(self)@), texts_under(from@)),
    {
        let ghost start = texts_under(self@);
        let ghost all = texts_under(from@);
        let mut i: usize = 0;
        proof {
            assert(all.take(0) =~= seq![]);
        }
        while i < from.len()
            invariant
                i <= from@.len(),
                all == texts_under(from@),
                texts_under(self@) == put_all(start, all.take(i as int)),
            decreases from@.len() - i,
        {
            let (key, value) = from.entry(i);
            let ghost before = self@;
            self.insert(key.clone(), value.clone());
            proof {
                texts_under_put(before, key@, *value);
                assert(all.take(i + 1).drop_last() =~= all.take(i as int));
                assert(all.take(i + 1).last() == (key@, value@));
            }
            i += 1;
        }
        proof {
            assert(all.take(i as int) =~= all);
        }
    }

    /// The same entries.
    pub fn copy(&self) -> (r: Self)
        ensures
            r@ == self@,
    {
        let mut r: Table<String> = Table::new();
        let mut i: usize = 0;
        proof {
            use_type_invariant(self);
            assert(self@.take(0) =~= r@);
        }
        while i < self.len()
            invariant
                i <= self@.len(),
                distinct_keys(self@),
                r@ == self@.take(i as int),
            decreases self@.len() - i,
        {
            let (key, value) = self.entry(i);
            proof {
                put_new(r@, key@, *value);
                assert(self@.take(i + 1) =~= self@.take(i as int).push(self@[i as int]));
            }
            r.insert(key.clone(), value.clone());
            i += 1;
        }
        proof {
            assert(self@.take(i as int) =~= self@);
        }
        r
    }
}

/// A new key goes to the end.
pub proof fn put_new<T>(entries: Seq<(Seq<char>, T)>, key: Seq<char>, value: T)
    requires
        forall|i: int| 0 <= i < entries.len() ==> (#[trigger] entries[i]).0 != key,
    ensures
        put(entries, key, value) == entries.push((key, value)),
    decreases entries.len(),
{
    if entries.len() == 0 {
        assert(put(entries, key, value) =~= entries.push((key, value)));
    } else {
        assert forall|i: int| 0 <= i < entries.skip(1).len() implies (#[trigger] entries.skip(
            1,
        )[i]).0 != key by {
            assert(entries[i + 1].0 != key);
        }
        put_new(entries.skip(1), key, value);
        assert(put(entries, key, value) =~= entries.push((key, value)));
    }
}

/// Entries with distinct keys, put one by one into nothing, are what is there then.
pub proof fn put_all_distinct<T>(from: Seq<(Seq<char>, T)>)
    requires
        distinct_keys(from),
    ensures
        put_all(seq![], from) == from,
    decreases from.len(),
{
    if from.len() == 0 {
        assert(put_all(seq![], from) =~= from);
    } else {
        let before = from.drop_last();
        put_all_distinct(before);
        assert forall|i: int| 0 <= i < before.len() implies (#[trigger] before[i]).0
            != from.last().0 by {
            assert(from[i].0 != from[from.len() - 1].0);
        }
        put_new(before, from.last().0, from.last().1);
        assert(from =~= before.push(from.last()));
    }
}

impl<T> Table<T> {
    #[verifier::type_invariant]
    spec fn well_formed(self) -> bool {
        distinct_keys(self.view())
    }

    /// A table without entries.
    pub fn new() -> (r: Self)
        ensures
            r@ == Seq::<(Seq<char>, T)>::empty(),
    {
        let r = Table { entries: Vec::new() };
        proof {
            assert(r@ =~= Seq::<(Seq<char>, T)>::empty());
        }
        r
    }

    /// How many entries there are.
    pub fn len(&self) -> (r: usize)
        ensures
            r == self@.len(),
            distinct_keys(self@),
    {
        proof {
            use_type_invariant(self);
        }
        self.entries.len()
    }

    /// Whether there is no entry.
    pub fn is_empty(&self) -> (r: bool)
        ensures
            r == (self@.len() == 0),
    {
        self.entries.len() == 0
    }

    /// The entry at a position.
    pub fn entry(&self, i: usize) -> (r: (&String, &T))
        requires
            i < self@.len(),
        ensures
            (r.0@, *r.1) == self@[i as int],
    {
        (&self.entries[i].0, &self.entries[i].1)
    }

    fn position(&self, key: &str) -> (r: Option<usize>)
        ensures
            match r {
                Some(i) => i < self@.len() && self@[i as int].0 == key@ && lookup(self@, key@)
                    == Some(self@[i as int].1) && forall|j: int|
                    0 <= j < i ==> (#[trigger] self@[j]).0 != key@,
                None => lookup(self@, key@) is None,
            },
    {
        let mut i: usize = 0;
        proof {
            assert(self@.skip(0) =~= self@);
        }
        while i < self.entries.len()
            invariant
                i <= self.entries@.len(),
                lookup(self@, key@) == lookup(self@.skip(i as int), key@),
                forall|j: int| 0 <= j < i ==> (#[trigger] self@[j]).0 != key@,
            decreases self.entries@.len() - i,
        {
            proof {
                assert(self@.skip(i as int).skip(1) =~= self@.skip(i + 1));
                assert(self@.skip(i as int)[0] == self@[i as int]);
            }
            if text::same_text(self.entries[i].0.as_str(), key) {
                return Some(i);
            }
            i += 1;
        }
        None
    }

    /// The value under a key.
    pub fn get(&self, key: &str) -> (r: Option<&T>)
        ensures
            match r {
                Some(v) => lookup(self@, key@) == Some(*v),
                None => lookup(self@, key@) is None,
            },
    {
        match self.position(key) {
            Some(i) => Some(&self.entries[i].1),
            None => None,
        }
    }

    /// Puts a value under a key.
    pub fn insert(&mut self, key: String, value: T)
        ensures
            final(self)@ == put(old(self)@, key@, value),
    {
        proof {
            use_type_invariant(&*self);
            put_keeps_distinct(self@, key@, value);
            put_keys(self@, key@, value);
        }
        let ghost before = self@;
        let ghost after = put(self@, key@, value);
        let place = self.position(key.as_str());
        let mut entries: Vec<(String, T)> = Vec::new();
        std::mem::swap(&mut entries, &mut self.entries);
        let ghost held = entries@;
        match place {
            Some(i) => {
                proof {
                    put_at(before, i as int, value);
                }
                entries[i] = (key, value);
            },
            None => {
                entries.push((key, value));
            },
        }
        let ghost shown = Seq::new(entries@.len(), |i: int| (entries@[i].0@, entries@[i].1));
        proof {
            assert(shown =~= after);
        }
        *self = Table { entries };
    }
}

/// Putting a value under a key that stands at position `i`.
pub proof fn put_at<T>(entries: Seq<(Seq<char>, T)>, i: int, value: T)
    requires
        0 <= i < entries.len(),
        forall|j: int| 0 <= j < i ==> (#[trigger] entries[j]).0 != entries[i].0,
    ensures
        put(entries, entries[i].0, value) == entries.update(i, (entries[i].0, value)),
    decreases entries.len(),
{
    let key = entries[i].0;
    if i == 0 {
        assert(put(entries, key, value) =~= entries.update(i, (key, value)));
    } else {
        let rest = entries.skip(1);
        assert forall|j: int| 0 <= j < i - 1 implies (#[trigger] rest[j]).0 != rest[i - 1].0 by {
            assert(entries[j + 1].0 != key);
        }
        put_at(rest, i - 1, value);
        assert(entries[0].0 != key);
        assert(put(entries, key, value) =~= entries.update(i, (key, value)));
    }
}

/// The texts under the keys of a table.
pub open spec fn texts_under(entries: Seq<(Seq<char>, String)>) -> Seq<(Seq<char>, Seq<char>)> {
    Seq::new(entries.len(), |i: int| (entries[i].0, entries[i].1@))
}

/// Putting a text into a table, and looking one up.
pub proof fn texts_under_put(entries: Seq<(Seq<char>, String)>, key: Seq<char>, value: String)
    ensures
        texts_under(put(entries, key, value)) == put(texts_under(entries), key, value@),
    decreases entries.len(),
{
    let shown = texts_under(entries);
    if entries.len() == 0 {
        assert(texts_under(put(entries, key, value)) =~= put(shown, key, value@));
    } else {
        let rest = entries.skip(1);
        assert(shown.skip(1) =~= texts_under(rest));
        if entries[0].0 == key {
            assert(texts_under(put(entries, key, value)) =~= put(shown, key, value@));
        } else {
            texts_under_put(rest, key, value);
            assert(texts_under(put(entries, key, value)) =~= seq![shown[0]] + texts_under(
                put(rest, key, value),
            ));
        }
    }
}

/// Looking up a text.
pub proof fn texts_under_lookup(entries: Seq<(Seq<char>, String)>, key: Seq<char>)
    ensures
        match lookup(entries, key) {
            Some(t) => lookup(texts_under(entries), key) == Some(t@),
            None => lookup(texts_under(entries), key) is None,
        },
    decreases entries.len(),
{
    if entries.len() > 0 {
        assert(texts_under(entries).skip(1) =~= texts_under(entries.skip(1)));
        if entries[0].0 != key {
            texts_under_lookup(entries.skip(1), key);
        }
    }
}

/// A key is found after entries were put when it was there before or is one of
/// theirs.
pub proof fn lookup_after_put_all<T>(
    entries: Seq<(Seq<char>, T)>,
    from: Seq<(Seq<char>, T)>,
    key: Seq<char>,
)
    ensures
        lookup(put_all(entries, from), key) is Some <==> lookup(entries, key) is Some || exists|
            i: int,
        |
            0 <= i < from.len() && (#[trigger] from[i]).0 == key,
    decreases from.len(),
{
    if from.len() > 0 {
        let before = from.drop_last();
        lookup_after_put_all(entries, before, key);
        lookup_after_put(put_all(entries, before), from.last().0, from.last().1, key);
        if from.last().0 == key {
            assert(from[from.len() - 1].0 == key);
        }
        if exists|i: int| 0 <= i < before.len() && (#[trigger] before[i]).0 == key {
            let i = choose|i: int| 0 <= i < before.len() && (#[trigger] before[i]).0 == key;
            assert(from[i].0 == key);
        }
        if exists|i: int| 0 <= i < from.len() && (#[trigger] from[i]).0 == key {
            let i = choose|i: int| 0 <= i < from.len() && (#[trigger] from[i]).0 == key;
            if i < from.len() - 1 {
                assert(before[i].0 == key);
            }
        }
    }
}

/// Of several values that are put under one key, the last counts.
pub proof fn last_put_counts<T>(
    entries: Seq<(Seq<char>, T)>,
    from: Seq<(Seq<char>, T)>,
    i: int,
)
    requires
        0 <= i < from.len(),
        forall|j: int| i < j < from.len() ==> (#[trigger] from[j]).0 != from[i].0,
    ensures
        lookup(put_all(entries, from), from[i].0) == Some(from[i].1),
    decreases from.len(),
{
    let before = from.drop_last();
    lookup_after_put(put_all(entries, before), from.last().0, from.last().1, from[i].0);
    if i < from.len() - 1 {
        assert forall|j: int| i < j < before.len() implies (#[trigger] before[j]).0
            != before[i].0 by {
            assert(from[j].0 != from[i].0);
        }
        last_put_counts(entries, before, i);
    }
}

/// The entries of a table with each value seen through `f`.
pub open spec fn mapped<T, U>(entries: Seq<(Seq<char>, T)>, f: spec_fn(T) -> U) -> Seq<
    (Seq<char>, U),
> {
    Seq::new(entries.len(), |i: int| (entries[i].0, f(entries[i].1)))
}

/// Putting a value into a table, seen through `f`.
pub proof fn mapped_put<T, U>(
    entries: Seq<(Seq<char>, T)>,
    key: Seq<char>,
    value: T,
    f: spec_fn(T) -> U,
)
    ensures
        mapped(put(entries, key, value), f) == put(mapped(entries, f), key, f(value)),
    decreases entries.len(),
{
    let shown = mapped(entries, f);
    if entries.len() == 0 {
        assert(mapped(put(entries, key, value), f) =~= put(shown, key, f(value)));
    } else {
        let rest = entries.skip(1);
        assert(shown.skip(1) =~= mapped(rest, f));
        if entries[0].0 == key {
            assert(mapped(put(entries, key, value), f) =~= put(shown, key, f(value)));
        } else {
            mapped_put(rest, key, value, f);
            assert(mapped(put(entries, key, value), f) =~= seq![shown[0]] + mapped(
                put(rest, key, value),
                f,
            ));
        }
    }
}

/// Looking a value up in a table, seen through `f`.
pub proof fn mapped_lookup<T, U>(entries: Seq<(Seq<char>, T)>, key: Seq<char>, f: spec_fn(T) -> U)
    ensures
        lookup(mapped(entries, f), key) == (match lookup(entries, key) {
            Some(v) => Some(f(v)),
            None => None,
        }),
    decreases entries.len(),
{
    if entries.len() > 0 {
        assert(mapped(entries, f).skip(1) =~= mapped(entries.skip(1), f));
        if entries[0].0 != key {
            mapped_lookup(entries.skip(1), key, f);
        }
    }
}

// ---- Laws ----

/// What is found under a key is the value of the first entry that has it.
pub proof fn first_entry_is_found<T>(entries: Seq<(Seq<char>, T)>, i: int)
    requires
        0 <= i < entries.len(),
        forall|j: int| 0 <= j < i ==> (#[trigger] entries[j]).0 != entries[i].0,
    ensures
        lookup(entries, entries[i].0) == Some(entries[i].1),
    decreases entries.len(),
{
    if i > 0 {
        assert(entries[0].0 != entries[i].0);
        let rest = entries.skip(1);
        assert(rest[i - 1] == entries[i]);
        assert forall|j: int| 0 <= j < i - 1 implies (#[trigger] rest[j]).0 != rest[i - 1].0 by {
            assert(rest[j] == entries[j + 1]);
        }
        first_entry_is_found(rest, i - 1);
    }
}

/// Where entries are put over others, the values of the new ones are found, and the
/// others under all other keys.
pub proof fn put_all_looks_behind_first<T>(
    entries: Seq<(Seq<char>, T)>,
    from: Seq<(Seq<char>, T)>,
    key: Seq<char>,
)
    requires
        distinct_keys(from),
    ensures
        lookup(put_all(entries, from), key) == (if lookup(from, key) is Some {
            lookup(from, key)
        } else {
            lookup(entries, key)
        }),
    decreases from.len(),
{
    if from.len() > 0 {
        let before = from.drop_last();
        let last = from.last();
        assert forall|i: int, j: int| 0 <= i < j < before.len() implies (#[trigger] before[i]).0
            != (#[trigger] before[j]).0 by {
            assert(from[i].0 != from[j].0);
        }
        put_all_looks_behind_first(entries, before, key);
        lookup_after_put(put_all(entries, before), last.0, last.1, key);
        assert forall|i: int| 0 <= i < before.len() implies (#[trigger] before[i]).0 != last.0 by {
            assert(from[i].0 != from[from.len() - 1].0);
        }
        put_new(before, last.0, last.1);
        assert(from =~= before.push(last));
        lookup_after_put(before, last.0, last.1, key);
    }
}

/// What is found under a key stays where no entry with that key is put.
pub proof fn others_stay_under_put_all<T>(
    entries: Seq<(Seq<char>, T)>,
    from: Seq<(Seq<char>, T)>,
    key: Seq<char>,
)
    requires
        forall|i: int| 0 <= i < from.len() ==> (#[trigger] from[i]).0 != key,
    ensures
        lookup(put_all(entries, from), key) == lookup(entries, key),
    decreases from.len(),
{
    if from.len() > 0 {
        let before = from.drop_last();
        assert forall|i: int| 0 <= i < before.len() implies (#[trigger] before[i]).0 != key by {
            assert(before[i] == from[i]);
        }
        others_stay_under_put_all(entries, before, key);
        assert(from[from.len() - 1].0 != key);
        lookup_after_put(put_all(entries, before), from.last().0, from.last().1, key);
    }
}

} // verus!
