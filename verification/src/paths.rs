//! Where the fragment is written: the project root and the path below it.

use vstd::prelude::*;
use vstd::string::*;

verus! {

/// `relative` below `root`: the two joined by one `/`, which is left out where
/// `root` is empty or already ends in one.
pub open spec fn joined_path(root: Seq<char>, relative: Seq<char>) -> Seq<char> {
    if root.len() == 0 || root.last() == '/' {
        root + relative
    } else {
        root + "/"@ + relative
    }
}

/// Returns the path of `relative` below the project root `root`.
///
/// Nothing is normalised: `relative` is taken as given.
pub fn root_path(root: &str, relative: &str) -> (res: String)
    ensures
        res@ == joined_path(root@, relative@),
{
    let len: usize = root.unicode_len();
    let mut path: String = String::from_str(root);
    if len > 0 && root.get_char(len - 1) != '/' {
        path.append("/");
    }
    path.append(relative);
    path
}

/// Of a directory and its ancestors, from the nearest to the farthest,
/// `has_manifest` says which hold the project's manifest: `i` is the nearest
/// that does.
pub open spec fn is_nearest_marked(has_manifest: Seq<bool>, i: int) -> bool {
    &&& 0 <= i < has_manifest.len()
    &&& has_manifest[i]
    &&& forall|j: int| 0 <= j < i ==> !has_manifest[j]
}

/// Picks the project root among a directory and its ancestors: the index of
/// the nearest one that holds the manifest, or `None` where none does.
pub fn project_root_index(has_manifest: &Vec<bool>) -> (res: Option<usize>)
    ensures
        match res {
            Some(i) => is_nearest_marked(has_manifest@, i as int),
            None => forall|j: int| 0 <= j < has_manifest@.len() ==> !has_manifest@[j],
        },
{
    let mut i: usize = 0;
    while i < has_manifest.len()
        invariant
            i <= has_manifest.len(),
            forall|j: int| 0 <= j < i ==> !has_manifest@[j],
        decreases has_manifest.len() - i,
    {
        if has_manifest[i] {
            return Some(i);
        }
        i += 1;
    }
    None
}

} // verus!
