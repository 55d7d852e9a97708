//! Lists of keyed entries in which a later entry stands for an earlier one of the same key.

use vstd::prelude::*;

use crate::text::text_eq;

verus! {

/// Entries in the order in which they were added, each under a key.
pub type Entries<V> = Seq<(Seq<char>, V)>;

/// The position of the last entry under a key, if there is one.
pub open spec fn last_position<V>(entries: Entries<V>, key: Seq<char>) -> Option<int>
    decreases entries.len(),
{
    if entries.len() == 0 {
        None
    } else if entries.last().0 == key {
        Some(entries.len() - 1)
    } else {
        last_position(entries.drop_last(), key)
    }
}

/// The value in effect under a key: that of the last entry.
pub open spec fn effective<V>(entries: Entries<V>, key: Seq<char>) -> Option<V> {
    match last_position(entries, key) {
        Some(i) => Some(entries[i].1),
        None => None,
    }
}

/// The entries with one more: it replaces the last entry of its key, or else comes at the end.
pub open spec fn placed<V>(entries: Entries<V>, key: Seq<char>, value: V) -> Entries<V> {
    match last_position(entries, key) {
        Some(i) => entries.update(i, (key, value)),
        None => entries.push((key, value)),
    }
}

/// The entries of `base` with those of `overrides` placed one after the other.
pub open spec fn merged<V>(base: Entries<V>, overrides: Entries<V>) -> Entries<V>
    decreases overrides.len(),
{
    if overrides.len() == 0 {
        base
    } else {
        let last = overrides.last();
        placed(merged(base, overrides.drop_last()), last.0, last.1)
    }
}

/// The entries placed one after the other: each key once, in the place where it came first, with
/// its last value.
pub open spec fn latest<V>(entries: Entries<V>) -> Entries<V> {
    merged(Seq::empty(), entries)
}

/// No key occurs twice.
pub open spec fn distinct_keys<V>(entries: Entries<V>) -> bool {
    forall|i: int, j: int|
        0 <= i < j < entries.len() ==> (#[trigger] entries[i]).0 != (#[trigger] entries[j]).0
}

/// Whether each key of some entries occurs once in others, with its last value.
pub open spec fn is_latest<V>(entries: Entries<V>, given: Entries<V>) -> bool {
    &&& distinct_keys(entries)
    &&& forall|key: Seq<char>| #[trigger] effective(entries, key) == effective(given, key)
}

/// The texts of a list, each under its key.
pub open spec fn text_entries(list: Seq<(String, String)>) -> Entries<Seq<char>> {
    list.map_values(|e: (String, String)| (e.0@, e.1@))
}

/// What `last_position` finds: the entry has the key, and no later entry has it.
pub proof fn last_position_found<V>(entries: Entries<V>, key: Seq<char>)
    ensures
        match last_position(entries, key) {
            Some(i) => {
                &&& 0 <= i < entries.len()
                &&& entries[i].0 == key
                &&& forall|j: int| i < j < entries.len() ==> (#[trigger] entries[j]).0 != key
            },
            None => forall|j: int| 0 <= j < entries.len() ==> (#[trigger] entries[j]).0 != key,
        },
    decreases entries.len(),
{
    if entries.len() > 0 && entries.last().0 != key {
        let front = entries.drop_last();
        last_position_found(front, key);
        assert forall|j: int|
            (match last_position(front, key) {
                Some(i) => i < j,
                None => 0 <= j,
            }) && j < entries.len() implies (#[trigger] entries[j]).0 != key by {
            if j < front.len() {
                assert(front[j] == entries[j]);
            }
        }
    }
}

/// An entry with the key after which none has it is the one that `last_position` finds.
pub proof fn last_position_is<V>(entries: Entries<V>, key: Seq<char>, i: int)
    requires
        0 <= i < entries.len(),
        entries[i].0 == key,
        forall|j: int| i < j < entries.len() ==> (#[trigger] entries[j]).0 != key,
    ensures
        last_position(entries, key) == Some(i),
{
    last_position_found(entries, key);
}

/// Where no entry has the key, `last_position` finds none.
pub proof fn last_position_none<V>(entries: Entries<V>, key: Seq<char>)
    requires
        forall|j: int| 0 <= j < entries.len() ==> (#[trigger] entries[j]).0 != key,
    ensures
        last_position(entries, key) is None,
{
    last_position_found(entries, key);
}

/// Placing an entry puts its value into effect and leaves every other key alone.
pub proof fn placed_effective<V>(entries: Entries<V>, key: Seq<char>, value: V, other: Seq<char>)
    ensures
        effective(placed(entries, key, value), other) == if other == key {
            Some(value)
        } else {
            effective(entries, other)
        },
{
    let after = placed(entries, key, value);
    last_position_found(entries, key);
    last_position_found(entries, other);
    last_position_found(after, other);
    match last_position(entries, key) {
        Some(i) => {
            assert forall|j: int| 0 <= j < after.len() implies (#[trigger] after[j]).0
                == entries[j].0 by {}
            match last_position(entries, other) {
                Some(k) => {
                    last_position_is(after, other, k);
                },
                None => {
                    last_position_none(after, other);
                },
            }
        },
        None => {
            if other == key {
                last_position_is(after, other, entries.len() as int);
            } else {
                assert(after.drop_last() =~= entries);
            }
        },
    }
}

/// An override wins where it sets a key; every other key keeps the value it had.
pub proof fn merged_effective<V>(base: Entries<V>, overrides: Entries<V>, key: Seq<char>)
    ensures
        effective(merged(base, overrides), key) == match effective(overrides, key) {
            Some(value) => Some(value),
            None => effective(base, key),
        },
    decreases overrides.len(),
{
    if overrides.len() > 0 {
        let last = overrides.last();
        let front = overrides.drop_last();
        merged_effective(base, front, key);
        placed_effective(merged(base, front), last.0, last.1, key);
        last_position_found(front, key);
    }
}

/// The entries of the base keep their places and keys; new keys come after them.
pub proof fn merged_keeps_order<V>(base: Entries<V>, overrides: Entries<V>)
    ensures
        merged(base, overrides).len() >= base.len(),
        forall|i: int|
            0 <= i < base.len() ==> (#[trigger] merged(base, overrides)[i]).0 == base[i].0,
    decreases overrides.len(),
{
    if overrides.len() > 0 {
        let last = overrides.last();
        let front = merged(base, overrides.drop_last());
        merged_keeps_order(base, overrides.drop_last());
        last_position_found(front, last.0);
    }
}

/// Merging never makes a key occur twice.
pub proof fn merged_distinct<V>(base: Entries<V>, overrides: Entries<V>)
    requires
        distinct_keys(base),
    ensures
        distinct_keys(merged(base, overrides)),
    decreases overrides.len(),
{
    if overrides.len() > 0 {
        let last = overrides.last();
        let front = merged(base, overrides.drop_last());
        merged_distinct(base, overrides.drop_last());
        last_position_found(front, last.0);
    }
}

/// Merging in two steps has the same effect as merging the merged overrides.
pub proof fn merged_associative<V>(a: Entries<V>, b: Entries<V>, c: Entries<V>, key: Seq<char>)
    ensures
        effective(merged(merged(a, b), c), key) == effective(merged(a, merged(b, c)), key),
{
    merged_effective(merged(a, b), c, key);
    merged_effective(a, b, key);
    merged_effective(a, merged(b, c), key);
    merged_effective(b, c, key);
}

/// Of entries placed one after the other, no key occurs twice and each has its last value.
pub proof fn latest_once<V>(entries: Entries<V>)
    ensures
        is_latest(latest(entries), entries),
{
    merged_distinct(Seq::empty(), entries);
    assert forall|key: Seq<char>| #[trigger] effective(latest(entries), key) == effective(
        entries,
        key,
    ) by {
        merged_effective(Seq::empty(), entries, key);
    }
}

/// Puts one text into a list: over the last one of the same key, or at the end.
pub(crate) fn place_text(list: &mut Vec<(String, String)>, entry: (String, String))
    ensures
        text_entries(final(list)@) == placed(text_entries(old(list)@), entry.0@, entry.1@),
{
    let ghost before = text_entries(list@);
    let mut i: usize = list.len();
    while i > 0
        invariant
            i <= list@.len(),
            list@ == old(list)@,
            before == text_entries(list@),
            forall|j: int| i <= j < list@.len() ==> (#[trigger] before[j]).0 != entry.0@,
        decreases i,
    {
        i = i - 1;
        assert(before[i as int] == (list@[i as int].0@, list@[i as int].1@));
        if text_eq(list[i].0.as_str(), entry.0.as_str()) {
            proof {
                last_position_is(before, entry.0@, i as int);
            }
            list.set(i, entry);
            proof {
                assert(text_entries(list@) =~= before.update(i as int, (entry.0@, entry.1@)));
            }
            return;
        }
    }
    proof {
        last_position_none(before, entry.0@);
    }
    list.push(entry);
    proof {
        assert(text_entries(list@) =~= before.push((entry.0@, entry.1@)));
    }
}

/// The texts with each key once, in the place where it came first, and its last value.
pub(crate) fn latest_texts(list: &Vec<(String, String)>) -> (r: Vec<(String, String)>)
    ensures
        text_entries(r@) == latest(text_entries(list@)),
        is_latest(text_entries(r@), text_entries(list@)),
{
    let ghost all = text_entries(list@);
    let mut out: Vec<(String, String)> = Vec::new();
    let mut i: usize = 0;
    proof {
        assert(text_entries(out@) =~= Seq::empty());
        assert(all.take(0) =~= Seq::empty());
    }
    while i < list.len()
        invariant
            i <= list@.len(),
            all == text_entries(list@),
            text_entries(out@) == latest(all.take(i as int)),
        decreases list@.len() - i,
    {
        proof {
            let next = all.take(i + 1);
            assert(next.drop_last() =~= all.take(i as int));
            assert(next.last() == all[i as int]);
        }
        place_text(&mut out, (list[i].0.clone(), list[i].1.clone()));
        i = i + 1;
    }
    proof {
        assert(all.take(i as int) =~= all);
        latest_once(all);
    }
    out
}

} // verus!
