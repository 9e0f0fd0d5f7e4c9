//! Relative paths as text: components parted by `/`.

use vstd::prelude::*;

verus! {

/// Parts the components of a path.
pub const SEPARATOR: char = '/';

/// The separator as text.
pub const SEPARATOR_TEXT: &'static str = "/";

/// The path that goes through `parent` to `child`. An empty side adds nothing, so that
/// no path begins or ends with a separator of this function's making.
pub open spec fn join_path(parent: Seq<char>, child: Seq<char>) -> Seq<char> {
    if parent.len() == 0 {
        child
    } else if child.len() == 0 {
        parent
    } else {
        parent + seq![SEPARATOR] + child
    }
}

/// The first separator of `path` at or after `from`, or the end of the path.
pub open spec fn component_end(path: Seq<char>, from: int) -> int
    decreases path.len() - from,
{
    if from < 0 || from >= path.len() {
        path.len() as int
    } else if path[from] == SEPARATOR {
        from
    } else {
        component_end(path, from + 1)
    }
}

/// A component ends at or after the position it is sought from, within the path, and
/// holds no separator.
pub proof fn lemma_component_end(path: Seq<char>, from: int)
    requires
        0 <= from <= path.len(),
    ensures
        from <= component_end(path, from) <= path.len(),
        component_end(path, from) < path.len() ==> path[component_end(path, from)] == SEPARATOR,
        forall|j: int| from <= j < component_end(path, from) ==> path[j] != SEPARATOR,
    decreases path.len() - from,
{
    if from < path.len() && path[from] != SEPARATOR {
        lemma_component_end(path, from + 1);
    }
}

/// Joining paths is associative.
pub proof fn lemma_join_path_associative(a: Seq<char>, b: Seq<char>, c: Seq<char>)
    ensures
        join_path(join_path(a, b), c) == join_path(a, join_path(b, c)),
{
    assert(join_path(join_path(a, b), c) =~= join_path(a, join_path(b, c)));
}

/// Joins two paths.
pub fn join(parent: &str, child: &str) -> (path: String)
    ensures
        path@ == join_path(parent@, child@),
{
    if parent.is_empty() {
        return child.to_owned();
    }
    let mut path = parent.to_owned();
    if !child.is_empty() {
        proof {
            reveal_strlit("/");
            assert(SEPARATOR_TEXT@ =~= seq![SEPARATOR]);
        }
        path.append(SEPARATOR_TEXT);
        path.append(child);
    }
    path
}

} // verus!
