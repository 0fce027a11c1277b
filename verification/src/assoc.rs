//! Association lists keyed by text: the shared groundwork of the two maps of
//! this crate. A list whose keys are pairwise distinct stands for a finite map
//! from the keys' text to the views of the values.

use vstd::prelude::*;

verus! {

/// The key of the `i`-th entry, as text.
pub open spec fn key_at<V>(s: Seq<(String, V)>, i: int) -> Seq<char> {
    s[i].0@
}

/// No key occurs twice.
pub open spec fn distinct_keys<V>(s: Seq<(String, V)>) -> bool {
    forall|i: int, j: int| 0 <= i < j < s.len() ==> key_at(s, i) != key_at(s, j)
}

/// Some entry has the key `k`.
pub open spec fn has_key<V>(s: Seq<(String, V)>, k: Seq<char>) -> bool {
    exists|i: int| 0 <= i < s.len() && #[trigger] key_at(s, i) == k
}

/// An index at which `k` stands; the only one where the keys are distinct.
pub open spec fn position<V>(s: Seq<(String, V)>, k: Seq<char>) -> int {
    choose|i: int| 0 <= i < s.len() && #[trigger] key_at(s, i) == k
}

/// The map that the list stands for.
pub open spec fn model<V: View>(s: Seq<(String, V)>) -> Map<Seq<char>, V::V> {
    Map::new(|k: Seq<char>| has_key(s, k), |k: Seq<char>| s[position(s, k)].1@)
}

/// A key that the list holds stands at its `position`.
pub proof fn lemma_position_in_range<V>(s: Seq<(String, V)>, k: Seq<char>)
    requires
        has_key(s, k),
    ensures
        0 <= position(s, k) < s.len(),
        key_at(s, position(s, k)) == k,
{
}

/// With distinct keys, the entry at `i` is the one that the map holds for its key.
pub proof fn lemma_model_at<V: View>(s: Seq<(String, V)>, i: int)
    requires
        distinct_keys(s),
        0 <= i < s.len(),
    ensures
        has_key(s, key_at(s, i)),
        position(s, key_at(s, i)) == i,
        model(s).contains_key(key_at(s, i)),
        model(s)[key_at(s, i)] == s[i].1@,
{
    let k = key_at(s, i);
    let p = position(s, k);
    assert(0 <= p < s.len() && key_at(s, p) == k);
    if p < i {
        assert(key_at(s, p) != key_at(s, i));
    } else if i < p {
        assert(key_at(s, i) != key_at(s, p));
    }
}

/// Replacing the value of entry `i` and keeping its key stores the new value
/// under that key.
pub proof fn lemma_model_update<V: View>(before: Seq<(String, V)>, after: Seq<(String, V)>, i: int)
    requires
        distinct_keys(before),
        0 <= i < before.len(),
        after.len() == before.len(),
        key_at(after, i) == key_at(before, i),
        forall|a: int| 0 <= a < before.len() && a != i ==> after[a] == before[a],
    ensures
        distinct_keys(after),
        model(after) == model(before).insert(key_at(before, i), after[i].1@),
{
    assert forall|a: int| 0 <= a < after.len() implies key_at(after, a) == key_at(before, a) by {}
    assert forall|a: int, b: int| 0 <= a < b < after.len() implies key_at(after, a) != key_at(
        after,
        b,
    ) by {
        assert(key_at(before, a) != key_at(before, b));
    }
    let target = model(before).insert(key_at(before, i), after[i].1@);
    assert forall|k: Seq<char>| #[trigger] model(after).contains_key(k) implies target.contains_key(
        k,
    ) && target[k] == model(after)[k] by {
        lemma_position_in_range(after, k);
        let p = position(after, k);
        assert(key_at(before, p) == k);
        lemma_model_at(before, p);
    }
    assert forall|k: Seq<char>| #[trigger] target.contains_key(k) implies model(after).contains_key(
        k,
    ) by {
        if k == key_at(before, i) {
            assert(key_at(after, i) == k);
        } else {
            lemma_position_in_range(before, k);
            assert(key_at(after, position(before, k)) == k);
        }
    }
    assert(model(after) =~= target);
}

/// Taking one more entry of the list adds its key and value to the map.
pub proof fn lemma_model_step<V: View>(s: Seq<(String, V)>, i: int)
    requires
        distinct_keys(s),
        0 <= i < s.len(),
    ensures
        distinct_keys(s.take(i)),
        distinct_keys(s.take(i + 1)),
        !has_key(s.take(i), key_at(s, i)),
        model(s.take(i + 1)) == model(s.take(i)).insert(key_at(s, i), s[i].1@),
{
    let shorter = s.take(i);
    let longer = s.take(i + 1);
    assert forall|a: int, b: int| 0 <= a < b < longer.len() implies key_at(longer, a) != key_at(
        longer,
        b,
    ) by {
        assert(key_at(s, a) != key_at(s, b));
    }
    assert forall|a: int, b: int| 0 <= a < b < shorter.len() implies key_at(shorter, a) != key_at(
        shorter,
        b,
    ) by {
        assert(key_at(s, a) != key_at(s, b));
    }
    if has_key(shorter, key_at(s, i)) {
        let p = position(shorter, key_at(s, i));
        assert(key_at(s, p) != key_at(s, i));
    }
    let target = model(shorter).insert(key_at(s, i), s[i].1@);
    assert forall|k: Seq<char>| #[trigger] model(longer).contains_key(k) implies target.contains_key(
        k,
    ) && target[k] == model(longer)[k] by {
        lemma_position_in_range(longer, k);
        let p = position(longer, k);
        assert(longer[p] == s[p]);
        if p < i {
            assert(key_at(s, p) != key_at(s, i));
            assert(shorter[p] == s[p]);
            assert(key_at(shorter, p) == k);
            lemma_model_at(shorter, p);
        }
    }
    assert forall|k: Seq<char>| #[trigger] target.contains_key(k) implies model(longer).contains_key(
        k,
    ) by {
        if k == key_at(s, i) {
            assert(key_at(longer, i) == k);
        } else {
            lemma_position_in_range(shorter, k);
            let p = position(shorter, k);
            assert(key_at(longer, p) == k);
        }
    }
    assert(model(longer) =~= target);
}

/// Appending an entry under a key that the list lacks adds it to the map.
pub proof fn lemma_model_push<V: View>(before: Seq<(String, V)>, entry: (String, V))
    requires
        distinct_keys(before),
        !has_key(before, entry.0@),
    ensures
        distinct_keys(before.push(entry)),
        model(before.push(entry)) == model(before).insert(entry.0@, entry.1@),
{
    let after = before.push(entry);
    let n = before.len() as int;
    assert(after.take(n) =~= before);
    assert(after.take(n + 1) =~= after);
    assert forall|a: int, b: int| 0 <= a < b < after.len() implies key_at(after, a) != key_at(
        after,
        b,
    ) by {
        assert(key_at(after, a) == key_at(before, a));
        if b < n {
            assert(key_at(before, a) != key_at(before, b));
        }
    }
    lemma_model_step(after, n);
}

/// Taking entry `i` out of the list takes its key out of the map.
pub proof fn lemma_model_remove<V: View>(before: Seq<(String, V)>, i: int)
    requires
        distinct_keys(before),
        0 <= i < before.len(),
    ensures
        distinct_keys(before.remove(i)),
        model(before.remove(i)) == model(before).remove(key_at(before, i)),
{
    let after = before.remove(i);
    assert forall|a: int| 0 <= a < after.len() implies after[a] == before[if a < i {
        a
    } else {
        a + 1
    }] by {}
    assert forall|a: int, b: int| 0 <= a < b < after.len() implies key_at(after, a) != key_at(
        after,
        b,
    ) by {
        let a0 = if a < i { a } else { a + 1 };
        let b0 = if b < i { b } else { b + 1 };
        assert(key_at(before, a0) != key_at(before, b0));
    }
    let target = model(before).remove(key_at(before, i));
    assert forall|k: Seq<char>| #[trigger] model(after).contains_key(k) implies target.contains_key(
        k,
    ) && target[k] == model(after)[k] by {
        lemma_position_in_range(after, k);
        let p = position(after, k);
        let p0 = if p < i { p } else { p + 1 };
        assert(key_at(before, p0) == k);
        lemma_model_at(before, p0);
        lemma_model_at(before, i);
    }
    assert forall|k: Seq<char>| #[trigger] target.contains_key(k) implies model(after).contains_key(
        k,
    ) by {
        lemma_position_in_range(before, k);
        let p0 = position(before, k);
        let p = if p0 < i { p0 } else { p0 - 1 };
        assert(key_at(after, p) == k);
    }
    assert(model(after) =~= target);
}

/// Finds the entry with the given key by a scan from the front.
pub fn find<V>(entries: &Vec<(String, V)>, key: &String) -> (r: Option<usize>)
    ensures
        match r {
            Some(i) => i < entries@.len() && key_at(entries@, i as int) == key@,
            None => !has_key(entries@, key@),
        },
{
    let mut i: usize = 0;
    while i < entries.len()
        invariant
            i <= entries@.len(),
            forall|j: int| 0 <= j < i ==> key_at(entries@, j) != key@,
        decreases entries@.len() - i,
    {
        if entries[i].0 == *key {
            return Some(i);
        }
        i += 1;
    }
    None
}

} // verus!
