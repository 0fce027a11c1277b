//! What a lookup means, over the mathematical model of a store: a map from
//! directory to that directory's own key/value map.

use vstd::prelude::*;
use crate::ancestry::{ancestors, ancestors_are_shorter, ancestors_end_at_root, is_root, parent};

verus! {

/// The key/value map that `dir` itself owns; empty where the store has no
/// entry for `dir`.
pub open spec fn local(
    store: Map<Seq<char>, Map<Seq<char>, Seq<char>>>,
    dir: Seq<char>,
) -> Map<Seq<char>, Seq<char>> {
    if store.contains_key(dir) {
        store[dir]
    } else {
        Map::empty()
    }
}

/// The maps of the directories of `chain` merged, the farthest first, so that
/// a directory nearer to the front of the chain overrides those behind it.
pub open spec fn merge_along(
    store: Map<Seq<char>, Map<Seq<char>, Seq<char>>>,
    chain: Seq<Seq<char>>,
) -> Map<Seq<char>, Seq<char>>
    decreases chain.len(),
{
    if chain.len() == 0 {
        Map::empty()
    } else {
        merge_along(store, chain.drop_first()).union_prefer_right(local(store, chain[0]))
    }
}

/// The value of `key` in the first directory of `chain` that defines it.
pub open spec fn find_along(
    store: Map<Seq<char>, Map<Seq<char>, Seq<char>>>,
    chain: Seq<Seq<char>>,
    key: Seq<char>,
) -> Option<Seq<char>>
    decreases chain.len(),
{
    if chain.len() == 0 {
        None
    } else if local(store, chain[0]).contains_key(key) {
        Some(local(store, chain[0])[key])
    } else {
        find_along(store, chain.drop_first(), key)
    }
}

/// Every key visible from `dir`, each with the value of the nearest directory
/// on the ancestor chain that defines it.
pub open spec fn resolved(
    store: Map<Seq<char>, Map<Seq<char>, Seq<char>>>,
    dir: Seq<char>,
) -> Map<Seq<char>, Seq<char>> {
    merge_along(store, ancestors(dir))
}

/// The value of `key` as seen from `dir`: that of the nearest directory on the
/// ancestor chain that defines it, or `None` where none does.
pub open spec fn lookup(
    store: Map<Seq<char>, Map<Seq<char>, Seq<char>>>,
    dir: Seq<char>,
    key: Seq<char>,
) -> Option<Seq<char>> {
    find_along(store, ancestors(dir), key)
}

/// The store after `key` was set to `value` in `dir`'s own map. No other
/// directory's entry changes.
pub open spec fn store_set(
    store: Map<Seq<char>, Map<Seq<char>, Seq<char>>>,
    dir: Seq<char>,
    key: Seq<char>,
    value: Seq<char>,
) -> Map<Seq<char>, Map<Seq<char>, Seq<char>>> {
    store.insert(dir, local(store, dir).insert(key, value))
}

/// The store after `key` was removed from `dir`'s own map. A store without an
/// entry for `dir` stays as it is, and no other directory's entry changes.
pub open spec fn store_remove(
    store: Map<Seq<char>, Map<Seq<char>, Seq<char>>>,
    dir: Seq<char>,
    key: Seq<char>,
) -> Map<Seq<char>, Map<Seq<char>, Seq<char>>> {
    if store.contains_key(dir) {
        store.insert(dir, store[dir].remove(key))
    } else {
        store
    }
}

/// Looking a key up along a chain gives what the merged map of that chain
/// holds for it.
pub proof fn find_agrees_with_merge(
    store: Map<Seq<char>, Map<Seq<char>, Seq<char>>>,
    chain: Seq<Seq<char>>,
    key: Seq<char>,
)
    ensures
        find_along(store, chain, key) == merge_along(store, chain).get(key),
    decreases chain.len(),
{
    if chain.len() > 0 {
        find_agrees_with_merge(store, chain.drop_first(), key);
    }
}

/// The single lookup and the bulk resolution never disagree: from every
/// directory and for every key, `lookup` gives the value that `resolved` holds
/// for the key, and gives nothing exactly when `resolved` lacks the key.
pub proof fn lookup_agrees_with_resolved(
    store: Map<Seq<char>, Map<Seq<char>, Seq<char>>>,
    dir: Seq<char>,
    key: Seq<char>,
)
    ensures
        lookup(store, dir, key) == resolved(store, dir).get(key),
        lookup(store, dir, key) is None <==> !resolved(store, dir).contains_key(key),
{
    find_agrees_with_merge(store, ancestors(dir), key);
}

/// The lookup from `dir` is the directory's own value where it has one, and
/// the lookup from its parent otherwise; from a root it is the root's own
/// value or nothing.
pub proof fn lookup_unfolds(
    store: Map<Seq<char>, Map<Seq<char>, Seq<char>>>,
    dir: Seq<char>,
    key: Seq<char>,
)
    ensures
        lookup(store, dir, key) == if local(store, dir).contains_key(key) {
            Some(local(store, dir)[key])
        } else {
            match parent(dir) {
                Some(p) => lookup(store, p, key),
                None => None,
            }
        },
{
    let chain = ancestors(dir);
    assert(chain.len() > 0 && chain[0] == dir);
    match parent(dir) {
        Some(p) => {
            assert(chain.drop_first() =~= ancestors(p));
        },
        None => {
            assert(chain.drop_first().len() == 0);
            assert(find_along(store, chain.drop_first(), key) is None);
        },
    }
}

/// A value that was just set in a directory is the one a lookup from that
/// directory returns.
pub proof fn set_then_lookup(
    store: Map<Seq<char>, Map<Seq<char>, Seq<char>>>,
    dir: Seq<char>,
    key: Seq<char>,
    value: Seq<char>,
)
    ensures
        lookup(store_set(store, dir, key, value), dir, key) == Some(value),
        resolved(store_set(store, dir, key, value), dir).get(key) == Some(value),
{
    let after = store_set(store, dir, key, value);
    lookup_unfolds(after, dir, key);
    lookup_agrees_with_resolved(after, dir, key);
}

/// Two stores that agree on every directory of a chain give the same lookups
/// along it.
proof fn find_along_depends_on_chain_only(
    a: Map<Seq<char>, Map<Seq<char>, Seq<char>>>,
    b: Map<Seq<char>, Map<Seq<char>, Seq<char>>>,
    chain: Seq<Seq<char>>,
    key: Seq<char>,
)
    requires
        forall|i: int| 0 <= i < chain.len() ==> local(a, #[trigger] chain[i]) == local(b, chain[i]),
    ensures
        find_along(a, chain, key) == find_along(b, chain, key),
    decreases chain.len(),
{
    if chain.len() > 0 {
        let rest = chain.drop_first();
        assert forall|i: int| 0 <= i < rest.len() implies local(a, #[trigger] rest[i]) == local(
            b,
            rest[i],
        ) by {
            assert(rest[i] == chain[i + 1]);
        }
        find_along_depends_on_chain_only(a, b, rest, key);
        assert(local(a, chain[0]) == local(b, chain[0]));
    }
}

/// After a key was removed from a directory, a lookup from that directory
/// falls through to the parent: it returns what the lookup from the parent
/// returned before the removal, and nothing where the directory is a root.
pub proof fn remove_falls_through(
    store: Map<Seq<char>, Map<Seq<char>, Seq<char>>>,
    dir: Seq<char>,
    key: Seq<char>,
)
    ensures
        lookup(store_remove(store, dir, key), dir, key) == match parent(dir) {
            Some(p) => lookup(store, p, key),
            None => None,
        },
{
    let after = store_remove(store, dir, key);
    lookup_unfolds(after, dir, key);
    assert(!local(after, dir).contains_key(key));
    match parent(dir) {
        Some(p) => {
            let chain = ancestors(p);
            ancestors_are_shorter(dir);
            assert(ancestors(dir) =~= seq![dir] + chain);
            assert forall|i: int| 0 <= i < chain.len() implies local(after, #[trigger] chain[i])
                == local(store, chain[i]) by {
                assert(chain[i] == ancestors(dir)[i + 1]);
                assert(chain[i].len() < dir.len());
                assert(chain[i] != dir);
            }
            find_along_depends_on_chain_only(after, store, chain, key);
        },
        None => {},
    }
}

/// Setting the same value twice leaves the store, and with it what every
/// directory resolves to, as setting it once does.
pub proof fn set_is_idempotent(
    store: Map<Seq<char>, Map<Seq<char>, Seq<char>>>,
    dir: Seq<char>,
    key: Seq<char>,
    value: Seq<char>,
    from: Seq<char>,
)
    ensures
        store_set(store_set(store, dir, key, value), dir, key, value) == store_set(
            store,
            dir,
            key,
            value,
        ),
        resolved(store_set(store_set(store, dir, key, value), dir, key, value), from) == resolved(
            store_set(store, dir, key, value),
            from,
        ),
{
    let once = store_set(store, dir, key, value);
    let twice = store_set(once, dir, key, value);
    assert(local(once, dir).insert(key, value) =~= local(once, dir));
    assert(twice =~= once);
}

/// Every key of every directory on a chain is a key of the merged map.
proof fn merge_covers_chain(
    store: Map<Seq<char>, Map<Seq<char>, Seq<char>>>,
    chain: Seq<Seq<char>>,
    i: int,
    key: Seq<char>,
)
    requires
        0 <= i < chain.len(),
        local(store, chain[i]).contains_key(key),
    ensures
        merge_along(store, chain).contains_key(key),
    decreases chain.len(),
{
    if i > 0 {
        let rest = chain.drop_first();
        assert(rest[i - 1] == chain[i]);
        merge_covers_chain(store, rest, i - 1, key);
    }
}

/// The entry of the root takes part in the resolution from every directory
/// below it: each of its keys is visible, with the root's value unless a
/// nearer directory defines the key. Seen from the root itself, the resolution
/// is the root's own map and nothing else.
pub proof fn root_entry_is_visible(
    store: Map<Seq<char>, Map<Seq<char>, Seq<char>>>,
    dir: Seq<char>,
    key: Seq<char>,
)
    ensures
        is_root(ancestors(dir).last()),
        local(store, ancestors(dir).last()).contains_key(key) ==> resolved(
            store,
            dir,
        ).contains_key(key),
        is_root(dir) ==> resolved(store, dir) == local(store, dir),
{
    ancestors_end_at_root(dir);
    let chain = ancestors(dir);
    if local(store, chain.last()).contains_key(key) {
        merge_covers_chain(store, chain, chain.len() - 1, key);
    }
    if is_root(dir) {
        assert(chain.drop_first() =~= Seq::<Seq<char>>::empty());
        assert(merge_along(store, chain.drop_first()) =~= Map::<Seq<char>, Seq<char>>::empty());
        assert(resolved(store, dir) =~= local(store, dir));
    }
}

} // verus!
