//! Lists of keyed texts in the order of an ordered map: keys ascend, and none occurs twice.

use vstd::prelude::*;

use crate::keyed::{
    effective, last_position_found, last_position_is, last_position_none, text_entries, Entries,
};
use crate::text::{chars_of, text_eq};

verus! {

/// Whether a text comes before another: at the first difference it has the smaller character, or
/// it ends there.
pub open spec fn text_before(a: Seq<char>, b: Seq<char>) -> bool
    decreases a.len(),
{
    if b.len() == 0 {
        false
    } else if a.len() == 0 {
        true
    } else if a[0] != b[0] {
        (a[0] as int) < (b[0] as int)
    } else {
        text_before(a.skip(1), b.skip(1))
    }
}

/// Of two different texts exactly one comes before the other, and none before itself.
pub proof fn text_order_total(a: Seq<char>, b: Seq<char>)
    ensures
        a == b ==> !text_before(a, b),
        a != b ==> text_before(a, b) != text_before(b, a),
    decreases a.len(),
{
    if a.len() > 0 && b.len() > 0 {
        if a[0] == b[0] {
            text_order_total(a.skip(1), b.skip(1));
            if a.skip(1) == b.skip(1) {
                assert(a =~= seq![a[0]] + a.skip(1));
                assert(b =~= seq![b[0]] + b.skip(1));
            }
        }
    } else if a.len() == b.len() {
        assert(a =~= b);
    }
}

/// What comes before a text comes before whatever that comes before.
pub proof fn text_order_transitive(a: Seq<char>, b: Seq<char>, c: Seq<char>)
    requires
        text_before(a, b),
        text_before(b, c),
    ensures
        text_before(a, c),
    decreases a.len(),
{
    if a.len() > 0 && a[0] == b[0] && b[0] == c[0] {
        text_order_transitive(a.skip(1), b.skip(1), c.skip(1));
    }
}

/// Whether a text comes before another.
fn comes_before(a: &str, b: &str) -> (r: bool)
    ensures
        r == text_before(a@, b@),
{
    let x = chars_of(a);
    let y = chars_of(b);
    let mut i: usize = 0;
    proof {
        assert(x@.skip(0) =~= x@);
        assert(y@.skip(0) =~= y@);
    }
    while i < y.len()
        invariant
            i <= x@.len(),
            i <= y@.len(),
            x@ == a@,
            y@ == b@,
            text_before(a@, b@) == text_before(x@.skip(i as int), y@.skip(i as int)),
        decreases y@.len() - i,
    {
        if i >= x.len() {
            return true;
        }
        proof {
            assert(x@.skip(i as int).skip(1) =~= x@.skip(i + 1));
            assert(y@.skip(i as int).skip(1) =~= y@.skip(i + 1));
        }
        let c: char = x[i];
        let d: char = y[i];
        if c != d {
            return c < d;
        }
        i = i + 1;
    }
    false
}

/// Keys ascend, so none occurs twice.
pub open spec fn ascending<V>(entries: Entries<V>) -> bool {
    forall|i: int, j: int|
        0 <= i < j < entries.len() ==> text_before(
            (#[trigger] entries[i]).0,
            (#[trigger] entries[j]).0,
        )
}

/// The entries of an ordered map into which these were put one after the other: keys ascend, and
/// each has its last value.
pub open spec fn is_ordered_map<V>(given: Entries<V>, entries: Entries<V>) -> bool {
    &&& ascending(entries)
    &&& forall|key: Seq<char>| #[trigger] effective(entries, key) == effective(given, key)
}

/// Keys that ascend are distinct.
pub proof fn ascending_is_distinct<V>(entries: Entries<V>)
    requires
        ascending(entries),
    ensures
        crate::keyed::distinct_keys(entries),
{
    assert forall|i: int, j: int| 0 <= i < j < entries.len() implies (#[trigger] entries[i]).0
        != (#[trigger] entries[j]).0 by {
        text_order_total(entries[i].0, entries[j].0);
    }
}

/// The value of the last entry is in effect, and its key does not occur before.
proof fn last_entry<V>(entries: Entries<V>, key: Seq<char>)
    requires
        ascending(entries),
        entries.len() > 0,
    ensures
        effective(entries, entries.last().0) == Some(entries.last().1),
        effective(entries.drop_last(), key) == if key == entries.last().0 {
            None
        } else {
            effective(entries, key)
        },
        ascending(entries.drop_last()),
        effective(entries, key) is Some ==> key == entries.last().0 || text_before(
            key,
            entries.last().0,
        ),
{
    let front = entries.drop_last();
    ascending_is_distinct(entries);
    last_position_found(entries, key);
    last_position_found(front, key);
    if key == entries.last().0 {
        assert forall|j: int| 0 <= j < front.len() implies (#[trigger] front[j]).0 != key by {
            assert(front[j] == entries[j]);
        }
        last_position_none(front, key);
    }
}

/// Entries whose keys ascend are determined by the values in effect.
pub proof fn ascending_is_determined<V>(a: Entries<V>, b: Entries<V>)
    requires
        ascending(a),
        ascending(b),
        forall|key: Seq<char>| #[trigger] effective(a, key) == effective(b, key),
    ensures
        a == b,
    decreases a.len(),
{
    if a.len() == 0 {
        if b.len() > 0 {
            last_entry(b, b.last().0);
            assert(effective(a, b.last().0) is None);
        }
        assert(a =~= b);
    } else if b.len() == 0 {
        last_entry(a, a.last().0);
        assert(effective(b, a.last().0) is None);
    } else {
        let k = a.last().0;
        let l = b.last().0;
        last_entry(a, k);
        last_entry(b, l);
        last_entry(a, l);
        last_entry(b, k);
        text_order_total(k, l);
        assert(effective(a, l) == effective(b, l));
        assert(effective(b, k) == effective(a, k));
        assert(k == l);
        assert forall|key: Seq<char>| #[trigger] effective(a.drop_last(), key) == effective(
            b.drop_last(),
            key,
        ) by {
            last_entry(a, key);
            last_entry(b, key);
            assert(effective(a, key) == effective(b, key));
        }
        ascending_is_determined(a.drop_last(), b.drop_last());
        assert(a =~= a.drop_last().push(a.last()));
        assert(b =~= b.drop_last().push(b.last()));
    }
}

/// The entries of an ordered map are determined by what was put into it.
pub proof fn ordered_map_is_determined<V>(given: Entries<V>, a: Entries<V>, b: Entries<V>)
    requires
        is_ordered_map(given, a),
        is_ordered_map(given, b),
    ensures
        a == b,
{
    assert forall|key: Seq<char>| #[trigger] effective(a, key) == effective(b, key) by {
        assert(effective(b, key) == effective(given, key));
    }
    ascending_is_determined(a, b);
}

/// An entry that is put between those before and those after its key.
proof fn inserted<V>(entries: Entries<V>, i: int, key: Seq<char>, value: V, other: Seq<char>)
    requires
        ascending(entries),
        0 <= i <= entries.len(),
        forall|j: int| 0 <= j < i ==> text_before((#[trigger] entries[j]).0, key),
        forall|j: int| i <= j < entries.len() ==> text_before(key, (#[trigger] entries[j]).0),
    ensures
        ascending(entries.insert(i, (key, value))),
        effective(entries.insert(i, (key, value)), other) == if other == key {
            Some(value)
        } else {
            effective(entries, other)
        },
{
    let after = entries.insert(i, (key, value));
    assert forall|p: int, q: int| 0 <= p < q < after.len() implies text_before(
        (#[trigger] after[p]).0,
        (#[trigger] after[q]).0,
    ) by {
        if p < i {
            assert(after[p] == entries[p]);
        } else if p > i {
            assert(after[p] == entries[p - 1]);
        }
        if q < i {
            assert(after[q] == entries[q]);
        } else if q > i {
            assert(after[q] == entries[q - 1]);
        }
    }
    last_position_found(entries, other);
    if other == key {
        assert forall|j: int| i < j < after.len() implies (#[trigger] after[j]).0 != key by {
            assert(after[j] == entries[j - 1]);
            text_order_total(key, entries[j - 1].0);
        }
        last_position_is(after, other, i);
    } else {
        match crate::keyed::last_position(entries, other) {
            Some(p) => {
                let at = if p < i {
                    p
                } else {
                    p + 1
                };
                assert(after[at] == entries[p]);
                assert forall|j: int| at < j < after.len() implies (#[trigger] after[j]).0
                    != other by {
                    if j < i {
                        assert(after[j] == entries[j]);
                    } else if j > i {
                        assert(after[j] == entries[j - 1]);
                    }
                }
                last_position_is(after, other, at);
            },
            None => {
                assert forall|j: int| 0 <= j < after.len() implies (#[trigger] after[j]).0
                    != other by {
                    if j < i {
                        assert(after[j] == entries[j]);
                    } else if j > i {
                        assert(after[j] == entries[j - 1]);
                    }
                }
                last_position_none(after, other);
            },
        }
    }
}

/// Puts one entry into a list whose keys ascend: over the one of the same key, or in its place.
fn put(entries: &mut Vec<(String, String)>, entry: (String, String))
    requires
        ascending(text_entries(old(entries)@)),
    ensures
        ascending(text_entries(final(entries)@)),
        forall|other: Seq<char>| #[trigger]
            effective(text_entries(final(entries)@), other) == if other == entry.0@ {
                Some(entry.1@)
            } else {
                effective(text_entries(old(entries)@), other)
            },
{
    let ghost before = text_entries(entries@);
    let mut i: usize = 0;
    while i < entries.len() && comes_before(entries[i].0.as_str(), entry.0.as_str())
        invariant
            i <= entries@.len(),
            entries@ == old(entries)@,
            before == text_entries(entries@),
            forall|j: int| 0 <= j < i ==> text_before((#[trigger] before[j]).0, entry.0@),
        decreases entries@.len() - i,
    {
        assert(before[i as int].0 == entries@[i as int].0@);
        i = i + 1;
    }
    if i < entries.len() && text_eq(entries[i].0.as_str(), entry.0.as_str()) {
        proof {
            assert(before[i as int].0 == entry.0@);
            ascending_is_distinct(before);
            last_position_is(before, entry.0@, i as int);
        }
        entries.set(i, entry);
        proof {
            let after = before.update(i as int, (entry.0@, entry.1@));
            assert(text_entries(entries@) =~= after);
            assert forall|p: int, q: int| 0 <= p < q < after.len() implies text_before(
                (#[trigger] after[p]).0,
                (#[trigger] after[q]).0,
            ) by {
                assert(after[p].0 == before[p].0 && after[q].0 == before[q].0);
            }
            assert forall|other: Seq<char>| #[trigger] effective(after, other) == if other
                == entry.0@ {
                Some(entry.1@)
            } else {
                effective(before, other)
            } by {
                crate::keyed::placed_effective(before, entry.0@, entry.1@, other);
            }
        }
        return;
    }
    proof {
        assert forall|j: int| i <= j < before.len() implies text_before(
            entry.0@,
            (#[trigger] before[j]).0,
        ) by {
            assert(before[i as int].0 == entries@[i as int].0@);
            text_order_total(before[i as int].0, entry.0@);
            if i < j {
                text_order_transitive(entry.0@, before[i as int].0, before[j].0);
            }
        }
    }
    entries.insert(i, entry);
    proof {
        let after = before.insert(i as int, (entry.0@, entry.1@));
        assert(text_entries(entries@) =~= after);
        inserted(before, i as int, entry.0@, entry.1@, entry.0@);
        assert forall|other: Seq<char>| #[trigger] effective(after, other) == if other == entry.0@ {
            Some(entry.1@)
        } else {
            effective(before, other)
        } by {
            inserted(before, i as int, entry.0@, entry.1@, other);
        }
    }
}

/// The entries in the order of their keys, each key once with its last value.
pub fn ordered(given: Vec<(String, String)>) -> (r: Vec<(String, String)>)
    ensures
        is_ordered_map(text_entries(given@), text_entries(r@)),
{
    let ghost all = text_entries(given@);
    let mut entries: Vec<(String, String)> = Vec::new();
    proof {
        assert(text_entries(entries@) =~= all.take(0));
    }
    for entry in it: given
        invariant
            it.seq() == given@,
            all == text_entries(given@),
            is_ordered_map(all.take(it.index() as int), text_entries(entries@)),
    {
        let ghost n = it.index() as int;
        let ghost before = text_entries(entries@);
        proof {
            assert(all.take(n + 1).drop_last() =~= all.take(n));
            assert(all.take(n + 1).last() == (entry.0@, entry.1@));
        }
        put(&mut entries, entry);
        proof {
            assert forall|key: Seq<char>| #[trigger] effective(text_entries(entries@), key)
                == effective(all.take(n + 1), key) by {
                assert(effective(before, key) == effective(all.take(n), key));
                last_position_found(all.take(n), key);
            }
        }
    }
    proof {
        assert(all.take(all.len() as int) =~= all);
    }
    entries
}

} // verus!
