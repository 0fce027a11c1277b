//! The ancestor chain of a directory: the directory, its parent, the parent's
//! parent, and so on up to a path that has no parent.

use vstd::prelude::*;

verus! {

/// What `std::path::Path::parent` returns for the path whose text is `dir`,
/// on the platform the library is built for: the text of the path without its
/// final component, or `None` where the path ends in a root or is empty.
pub uninterp spec fn path_parent(dir: Seq<char>) -> Option<Seq<char>>;

/// Calls `std::path::Path::parent` on `dir` and hands the parent back as text.
///
/// Trusted, not proved: the result is `path_parent` of `dir`, and a parent is
/// shorter than the path it was taken from, since it is that path without its
/// final component. The parent is a slice of `dir` that ends where a component
/// ends, so it is text again.
#[verifier::external_body]
fn parent_of<'a>(dir: &'a str) -> (r: Option<&'a str>)
    ensures
        match r {
            Some(p) => path_parent(dir@) == Some(p@) && p@.len() < dir@.len(),
            None => path_parent(dir@) is None,
        },
{
    std::path::Path::new(dir).parent().and_then(std::path::Path::to_str)
}

/// The parent of a directory, or `None` for a root.
///
/// This is `path_parent`, cut off where it would not shorten the path. Of a
/// path that the standard library parsed that never happens; the cut is what
/// makes every ancestor chain end.
pub open spec fn parent(dir: Seq<char>) -> Option<Seq<char>> {
    match path_parent(dir) {
        Some(p) => if p.len() < dir.len() {
            Some(p)
        } else {
            None
        },
        None => None,
    }
}

/// A directory without a parent: where the walk up the tree ends.
pub open spec fn is_root(dir: Seq<char>) -> bool {
    parent(dir) is None
}

/// The ancestor chain of `dir`, nearest first: `dir` itself, then its parent,
/// and so on; the last element is a root.
pub open spec fn ancestors(dir: Seq<char>) -> Seq<Seq<char>>
    decreases dir.len(),
{
    match parent(dir) {
        Some(p) => seq![dir] + ancestors(p),
        None => seq![dir],
    }
}

/// The texts of a list of strings.
pub open spec fn texts(v: Seq<String>) -> Seq<Seq<char>> {
    Seq::new(v.len(), |i: int| v[i]@)
}

/// The parent of `dir`, or `None` where `dir` is a root.
pub fn parent_dir<'a>(dir: &'a str) -> (r: Option<&'a str>)
    ensures
        match r {
            Some(p) => parent(dir@) == Some(p@),
            None => is_root(dir@),
        },
{
    parent_of(dir)
}

/// The ancestor chain of `dir`, nearest first.
pub fn ancestor_chain(dir: &str) -> (chain: Vec<String>)
    ensures
        texts(chain@) == ancestors(dir@),
{
    let mut chain: Vec<String> = Vec::new();
    let mut cur: &str = dir;
    assert(texts(chain@) + ancestors(cur@) =~= ancestors(dir@));
    loop
        invariant
            texts(chain@) + ancestors(cur@) == ancestors(dir@),
        decreases cur@.len(),
    {
        let ghost walked = texts(chain@);
        chain.push(cur.to_owned());
        assert(texts(chain@) =~= walked + seq![cur@]);
        match parent_dir(cur) {
            Some(p) => {
                assert((walked + seq![cur@]) + ancestors(p@) =~= walked + (seq![cur@] + ancestors(
                    p@,
                )));
                cur = p;
            },
            None => {
                return chain;
            },
        }
    }
}

/// A chain starts at its directory, each element is followed by its parent,
/// and the last element is a root: the walk never goes past it.
pub proof fn ancestors_end_at_root(dir: Seq<char>)
    ensures
        ancestors(dir).len() >= 1,
        ancestors(dir).len() <= dir.len() + 1,
        ancestors(dir)[0] == dir,
        forall|i: int|
            0 <= i < ancestors(dir).len() - 1 ==> parent(#[trigger] ancestors(dir)[i]) == Some(
                ancestors(dir)[i + 1],
            ),
        is_root(ancestors(dir).last()),
    decreases dir.len(),
{
    match parent(dir) {
        Some(p) => {
            ancestors_end_at_root(p);
            let rest = ancestors(p);
            let chain = ancestors(dir);
            assert(chain =~= seq![dir] + rest);
            assert forall|i: int| 0 <= i < chain.len() - 1 implies parent(#[trigger] chain[i])
                == Some(chain[i + 1]) by {
                if i > 0 {
                    assert(chain[i] == rest[i - 1]);
                    assert(chain[i + 1] == rest[i]);
                }
            }
            assert(chain.last() == rest.last());
        },
        None => {},
    }
}

/// Every proper ancestor of a directory is shorter than the directory, so the
/// directory does not occur among them.
pub proof fn ancestors_are_shorter(dir: Seq<char>)
    ensures
        forall|i: int|
            1 <= i < ancestors(dir).len() ==> (#[trigger] ancestors(dir)[i]).len() < dir.len(),
    decreases dir.len(),
{
    match parent(dir) {
        Some(p) => {
            ancestors_are_shorter(p);
            ancestors_end_at_root(p);
            let rest = ancestors(p);
            let chain = ancestors(dir);
            assert(chain =~= seq![dir] + rest);
            assert forall|i: int| 1 <= i < chain.len() implies (#[trigger] chain[i]).len()
                < dir.len() by {
                assert(chain[i] == rest[i - 1]);
                if i > 1 {
                    assert(rest[i - 1].len() < p.len());
                }
            }
        },
        None => {},
    }
}

} // verus!
