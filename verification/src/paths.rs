use vstd::prelude::*;
use vstd::string::*;

verus! {

/// A path that starts at the root of the file system.
pub open spec fn is_absolute(path: Seq<char>) -> bool {
    path.len() > 0 && path[0] == '/'
}

/// The place that `child` names when it is read from the directory `base`:
/// an absolute path stands for itself, any other is taken below `base`, the
/// two joined by one slash. An empty base gives `child` alone.
pub open spec fn joined(base: Seq<char>, child: Seq<char>) -> Seq<char> {
    if is_absolute(child) || base.len() == 0 {
        child
    } else if base.last() == '/' {
        base + child
    } else {
        base + seq!['/'] + child
    }
}

/// The place that the path of an import names when the importing document
/// lies in the directory `base`.
pub open spec fn resolved(base: Seq<char>, path: Seq<char>) -> Seq<char> {
    joined(base, path)
}

/// Whether a path starts at the root of the file system.
pub fn path_is_absolute(path: &str) -> (yes: bool)
    ensures
        yes == is_absolute(path@),
{
    !path.is_empty() && path.get_char(0) == '/'
}

/// The place that `child` names when it is read from the directory `base`.
pub fn join_path(base: &str, child: &str) -> (path: String)
    ensures
        path@ == joined(base@, child@),
{
    let n = base.unicode_len();
    if n == 0 || path_is_absolute(child) {
        return child.to_owned();
    }
    let mut path = base.to_owned();
    if base.get_char(n - 1) != '/' {
        path.append("/");
        proof {
            reveal_strlit("/");
            assert("/"@ =~= seq!['/']);
        }
    }
    path.append(child);
    path
}

/// The place that the path of an import names when the importing document
/// lies in the directory `base`.
pub fn resolve_path(base: &str, path: &str) -> (place: String)
    ensures
        place@ == resolved(base@, path@),
{
    join_path(base, path)
}

} // verus!
