//! Paths as sequences of components, and the exclusion-prefix test.
//!
//! A path is matched against an exclusion set component by component, so
//! that an exclusion `/foo` covers `/foo` and `/foo/bar` but never
//! `/foo2`: raw string-prefix matching would get that wrong.

use vstd::prelude::*;

verus! {

/// A filesystem path, split into its components.
pub struct FsPath {
    pub components: Vec<String>,
}

impl FsPath {
    /// The path as a sequence of component views.
    pub open spec fn view(&self) -> Seq<Seq<char>> {
        self.components@.map_values(|c: String| c@)
    }

    /// An empty path (the root of a relative walk).
    pub fn empty() -> (p: FsPath)
        ensures
            p@ == Seq::<Seq<char>>::empty(),
    {
        let p = FsPath { components: Vec::new() };
        proof {
            assert(p@ =~= Seq::<Seq<char>>::empty());
        }
        p
    }

    /// The path extended by one more component.
    pub fn child(&self, name: &String) -> (p: FsPath)
        ensures
            p@ == self@.push(name@),
    {
        let mut components = self.components.clone();
        components.push(name.clone());
        let p = FsPath { components };
        proof {
            assert(p@ =~= self@.push(name@));
        }
        p
    }
}

impl Clone for FsPath {
    fn clone(&self) -> (p: Self)
        ensures
            p@ == self@,
    {
        let p = FsPath { components: self.components.clone() };
        proof {
            assert(p@ =~= self@);
        }
        p
    }
}

/// One path is a component-wise prefix of another: every component of
/// `prefix` appears, in order, at the start of `path`.
pub open spec fn is_path_prefix(prefix: Seq<Seq<char>>, path: Seq<Seq<char>>) -> bool {
    prefix.len() <= path.len() && prefix =~= path.subrange(0, prefix.len() as int)
}

/// A path is excluded when some exclusion entry is a component-wise
/// prefix of it (the path itself or any ancestor is excluded).
pub open spec fn is_excluded(path: Seq<Seq<char>>, exclusions: Seq<Seq<Seq<char>>>) -> bool {
    exists|i: int| 0 <= i < exclusions.len() && is_path_prefix(exclusions[i], path)
}

/// The exclusion set, viewed as a sequence of component sequences.
pub open spec fn exclusions_view(exclusions: Seq<FsPath>) -> Seq<Seq<Seq<char>>> {
    exclusions.map_values(|p: FsPath| p@)
}

/// Whether `prefix` is a component-wise prefix of `path`.
fn starts_with(path: &FsPath, prefix: &FsPath) -> (r: bool)
    ensures
        r == is_path_prefix(prefix@, path@),
{
    if prefix.components.len() > path.components.len() {
        return false;
    }
    let n = prefix.components.len();
    for i in 0..n
        invariant
            n == prefix.components.len() <= path.components.len(),
            forall|j: int| 0 <= j < i ==> prefix@[j] == path@[j],
    {
        if !(prefix.components[i] == path.components[i]) {
            assert(prefix@[i as int] != path@[i as int]);
            assert(!is_path_prefix(prefix@, path@));
            return false;
        }
    }
    assert(prefix@ =~= path@.subrange(0, prefix@.len() as int));
    true
}

/// Whether `path` must be skipped: true exactly when `path` equals, or
/// lies under, some entry of `ignore_paths`.
pub fn should_ignore(path: &FsPath, ignore_paths: &Vec<FsPath>) -> (r: bool)
    ensures
        r == is_excluded(path@, exclusions_view(ignore_paths@)),
{
    let n = ignore_paths.len();
    for i in 0..n
        invariant
            n == ignore_paths.len(),
            forall|j: int|
                0 <= j < i ==> !is_path_prefix(exclusions_view(ignore_paths@)[j], path@),
    {
        if starts_with(path, &ignore_paths[i]) {
            assert(is_path_prefix(exclusions_view(ignore_paths@)[i as int], path@));
            return true;
        }
    }
    false
}

/// The component-prefix relation is transitive.
pub proof fn lemma_prefix_transitive(a: Seq<Seq<char>>, b: Seq<Seq<char>>, c: Seq<Seq<char>>)
    requires
        is_path_prefix(a, b),
        is_path_prefix(b, c),
    ensures
        is_path_prefix(a, c),
{
    assert forall|i: int| 0 <= i < a.len() implies a[i] == c.subrange(0, a.len() as int)[i] by {
        assert(a[i] == b.subrange(0, a.len() as int)[i]);
        assert(b[i] == c.subrange(0, b.len() as int)[i]);
    }
    assert(a =~= c.subrange(0, a.len() as int));
}

/// Exclusion is closed downward: everything under an excluded path is
/// itself excluded. An excluded directory therefore covers its whole
/// subtree.
pub proof fn lemma_excluded_downward(
    path: Seq<Seq<char>>,
    longer: Seq<Seq<char>>,
    exclusions: Seq<Seq<Seq<char>>>,
)
    requires
        is_excluded(path, exclusions),
        is_path_prefix(path, longer),
    ensures
        is_excluded(longer, exclusions),
{
    let i = choose|i: int| 0 <= i < exclusions.len() && is_path_prefix(exclusions[i], path);
    assert(is_path_prefix(exclusions[i], longer)) by {
        assert forall|j: int| 0 <= j < exclusions[i].len() implies exclusions[i][j]
            == longer.subrange(0, exclusions[i].len() as int)[j] by {
            assert(exclusions[i][j] == path.subrange(0, exclusions[i].len() as int)[j]);
            assert(path[j] == longer.subrange(0, path.len() as int)[j]);
        }
        assert(exclusions[i] =~= longer.subrange(0, exclusions[i].len() as int));
    }
}

} // verus!
