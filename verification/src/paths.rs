//! Paths that were found in the file system, by their components.

use vstd::prelude::*;
use vstd::seq_lib::{to_multiset_build, to_multiset_insert};

use crate::text::chars_of;

verus! {

/// A path and the components it is made of.
#[derive(Debug)]
pub struct FoundPath {
    pub path: String,
    pub components: Vec<String>,
}

/// The code by which a character is ordered. Zero is left for the end of a component.
pub open spec fn char_key(c: char) -> u64 {
    (c as u32 + 1) as u64
}

/// The key of a component: its characters, then its end, which comes before any of them.
pub open spec fn component_key(component: Seq<char>) -> Seq<u64> {
    component.map_values(|c: char| char_key(c)).push(0u64)
}

/// The key by which paths are ordered: component by component.
pub open spec fn path_key(components: Seq<String>) -> Seq<u64>
    decreases components.len(),
{
    if components.len() == 0 {
        Seq::empty()
    } else {
        path_key(components.drop_last()) + component_key(components.last()@)
    }
}

/// The lexicographic order of two keys.
pub open spec fn key_le(a: Seq<u64>, b: Seq<u64>) -> bool
    decreases a.len(),
{
    if a.len() == 0 {
        true
    } else if b.len() == 0 {
        false
    } else if a[0] != b[0] {
        a[0] < b[0]
    } else {
        key_le(a.skip(1), b.skip(1))
    }
}

/// The order of keys is total.
pub proof fn key_le_total(a: Seq<u64>, b: Seq<u64>)
    ensures
        key_le(a, b) || key_le(b, a),
    decreases a.len(),
{
    if a.len() > 0 && b.len() > 0 && a[0] == b[0] {
        key_le_total(a.skip(1), b.skip(1));
    }
}

/// The order of keys is transitive.
pub proof fn key_le_transitive(a: Seq<u64>, b: Seq<u64>, c: Seq<u64>)
    requires
        key_le(a, b),
        key_le(b, c),
    ensures
        key_le(a, c),
    decreases a.len(),
{
    if a.len() > 0 && b.len() > 0 && c.len() > 0 && a[0] == b[0] && b[0] == c[0] {
        key_le_transitive(a.skip(1), b.skip(1), c.skip(1));
    }
}

/// Keys that are ordered both ways are equal.
pub proof fn key_le_antisymmetric(a: Seq<u64>, b: Seq<u64>)
    requires
        key_le(a, b),
        key_le(b, a),
    ensures
        a == b,
    decreases a.len(),
{
    if a.len() > 0 && b.len() > 0 {
        key_le_antisymmetric(a.skip(1), b.skip(1));
        assert(a =~= seq![a[0]] + a.skip(1));
        assert(b =~= seq![b[0]] + b.skip(1));
    } else {
        assert(a =~= b);
    }
}

/// Compares two keys.
fn key_before_or_same(a: &Vec<u64>, b: &Vec<u64>) -> (r: bool)
    ensures
        r == key_le(a@, b@),
{
    let mut i: usize = 0;
    proof {
        assert(a@.skip(0) =~= a@);
        assert(b@.skip(0) =~= b@);
    }
    while i < a.len()
        invariant
            i <= a@.len(),
            i <= b@.len(),
            key_le(a@, b@) == key_le(a@.skip(i as int), b@.skip(i as int)),
        decreases a@.len() - i,
    {
        if i >= b.len() {
            return false;
        }
        proof {
            assert(a@.skip(i as int).skip(1) =~= a@.skip(i + 1));
            assert(b@.skip(i as int).skip(1) =~= b@.skip(i + 1));
        }
        if a[i] != b[i] {
            return a[i] < b[i];
        }
        i = i + 1;
    }
    true
}

/// The key of a path.
fn key_of(components: &Vec<String>) -> (r: Vec<u64>)
    ensures
        r@ == path_key(components@),
{
    let mut key: Vec<u64> = Vec::new();
    let mut i: usize = 0;
    while i < components.len()
        invariant
            i <= components@.len(),
            key@ == path_key(components@.take(i as int)),
        decreases components@.len() - i,
    {
        let ghost before = key@;
        let chars = chars_of(components[i].as_str());
        let ghost codes = chars@.map_values(|c: char| char_key(c));
        let mut k: usize = 0;
        proof {
            assert(before + codes.take(0) =~= before);
        }
        while k < chars.len()
            invariant
                k <= chars@.len(),
                codes == chars@.map_values(|c: char| char_key(c)),
                key@ == before + codes.take(k as int),
            decreases chars@.len() - k,
        {
            let c: char = chars[k];
            proof {
                assert(codes.take(k + 1) =~= codes.take(k as int).push(char_key(c)));
            }
            let code: u32 = c as u32;
            key.push(code as u64 + 1);
            proof {
                assert(key@ =~= before + codes.take(k + 1));
            }
            k = k + 1;
        }
        key.push(0);
        proof {
            let taken = components@.take(i + 1);
            assert(codes.take(k as int) =~= codes);
            assert(taken.drop_last() =~= components@.take(i as int));
            assert(key@ =~= before + component_key(components@[i as int]@));
        }
        i = i + 1;
    }
    proof {
        assert(components@.take(i as int) =~= components@);
    }
    key
}

/// Paths in ascending order.
pub open spec fn is_sorted(paths: Seq<FoundPath>) -> bool {
    forall|i: int, j: int|
        0 <= i <= j < paths.len() ==> key_le(
            path_key((#[trigger] paths[i]).components@),
            path_key((#[trigger] paths[j]).components@),
        )
}

/// Sorts paths component by component.
pub fn sort_paths(paths: Vec<FoundPath>) -> (r: Vec<FoundPath>)
    ensures
        is_sorted(r@),
        r@.to_multiset() == paths@.to_multiset(),
        r@.len() == paths@.len(),
{
    let ghost given = paths@;
    let mut sorted: Vec<FoundPath> = Vec::new();
    proof {
        assert(given.take(0) =~= sorted@);
    }
    for path in it: paths
        invariant
            it.seq() == given,
            is_sorted(sorted@),
            sorted@.to_multiset() == given.take(it.index() as int).to_multiset(),
            sorted@.len() == it.index(),
    {
        let ghost n = it.index() as int;
        let key = key_of(&path.components);
        let mut at: usize = 0;
        while at < sorted.len()
            invariant_except_break
                at <= sorted@.len(),
            invariant
                key@ == path_key(path.components@),
                forall|k: int|
                    0 <= k < at ==> key_le(
                        path_key((#[trigger] sorted@[k]).components@),
                        key@,
                    ),
            ensures
                at <= sorted@.len(),
                at < sorted@.len() ==> !key_le(path_key(sorted@[at as int].components@), key@),
            decreases sorted@.len() - at,
        {
            let other = key_of(&sorted[at].components);
            if !key_before_or_same(&other, &key) {
                break;
            }
            at = at + 1;
        }
        let ghost before = sorted@;
        proof {
            insertion_keeps_order(before, path, at as int);
            to_multiset_insert(before, at as int, path);
            to_multiset_build(given.take(n), path);
            assert(given.take(n + 1) =~= given.take(n).push(path));
        }
        sorted.insert(at, path);
    }
    proof {
        assert(given.take(given.len() as int) =~= given);
    }
    sorted
}

/// A path that comes after all before a position and not after the one there can be put there.
proof fn insertion_keeps_order(paths: Seq<FoundPath>, path: FoundPath, at: int)
    requires
        is_sorted(paths),
        0 <= at <= paths.len(),
        forall|k: int|
            0 <= k < at ==> key_le(
                path_key((#[trigger] paths[k]).components@),
                path_key(path.components@),
            ),
        at < paths.len() ==> !key_le(
            path_key(paths[at].components@),
            path_key(path.components@),
        ),
    ensures
        is_sorted(paths.insert(at, path)),
{
    let after = paths.insert(at, path);
    let key = path_key(path.components@);
    assert forall|i: int, j: int| 0 <= i <= j < after.len() implies key_le(
        path_key((#[trigger] after[i]).components@),
        path_key((#[trigger] after[j]).components@),
    ) by {
        key_le_total(key, key);
        if i == at && j > at {
            let first = path_key(paths[at].components@);
            let other = path_key(paths[j - 1].components@);
            key_le_total(key, first);
            assert(key_le(first, other));
            key_le_transitive(key, first, other);
        } else if i < at && j < at {
            assert(key_le(path_key(paths[i].components@), path_key(paths[j].components@)));
        } else if i < at && j == at {
            assert(after[i] == paths[i]);
        } else if i < at && j > at {
            assert(key_le(path_key(paths[i].components@), path_key(paths[j - 1].components@)));
        } else if i > at {
            assert(key_le(path_key(paths[i - 1].components@), path_key(paths[j - 1].components@)));
        }
    }
}

} // verus!
