//! Changes to fields and to the fields that enclose them.

use crate::change::{changes_view, FieldChange, FieldChangeView};
use crate::column_name::ColumnName;
use crate::seqs::lemma_filter_step;
use vstd::prelude::*;

verus! {

/// The paths in a list.
pub open spec fn paths_view(paths: Seq<ColumnName>) -> Seq<Seq<Seq<char>>> {
    paths.map_values(|p: ColumnName| p@)
}

/// The paths of changes.
pub open spec fn change_paths(changes: Seq<FieldChangeView>) -> Seq<Seq<Seq<char>>> {
    changes.map_values(|c: FieldChangeView| c.path)
}

/// Some of `paths` is an ancestor of `path`: a proper prefix of it.
pub open spec fn has_ancestor_in(path: Seq<Seq<char>>, paths: Seq<Seq<Seq<char>>>) -> bool {
    exists|k: int| 0 < k < path.len() && paths.contains(#[trigger] path.take(k))
}

/// The path has one name, or the path without its last name is not that of any of `changes`.
pub open spec fn parent_not_in(changes: Seq<FieldChangeView>) -> spec_fn(FieldChangeView) -> bool {
    |c: FieldChangeView|
        c.path.len() == 1 || !change_paths(changes).contains(c.path.drop_last())
}

/// The changes without those whose parent path is also among them.
pub open spec fn without_descendants(changes: Seq<FieldChangeView>) -> Seq<FieldChangeView> {
    changes.filter(parent_not_in(changes))
}

/// The field at `k` immediately encloses the one at `i`, in a list in which each field is followed by
/// the fields within it: it is the nearest before it at the parent path.
pub open spec fn encloses(paths: Seq<Seq<Seq<char>>>, k: int, i: int) -> bool {
    &&& 0 <= k < i < paths.len()
    &&& paths[i].len() > 1
    &&& paths[k] == paths[i].drop_last()
    &&& forall|j: int| k < j < i ==> #[trigger] paths[j] != paths[i].drop_last()
}

/// The field that immediately encloses the one at `i`.
pub open spec fn enclosing(paths: Seq<Seq<Seq<char>>>, i: int) -> Option<int> {
    if exists|k: int| encloses(paths, k, i) {
        Some(choose|k: int| encloses(paths, k, i))
    } else {
        None
    }
}

/// A field is immediately enclosed by one field at most.
pub(crate) proof fn lemma_enclosing_unique(paths: Seq<Seq<Seq<char>>>, k: int, i: int)
    requires
        encloses(paths, k, i),
    ensures
        enclosing(paths, i) == Some(k),
{
    let m = choose|m: int| encloses(paths, m, i);
    assert(encloses(paths, m, i));
    if m < k {
        assert(paths[k] != paths[i].drop_last());
    } else if k < m {
        assert(paths[m] != paths[i].drop_last());
    }
}

/// Whether `path` is among `paths`.
fn contains_path(paths: &Vec<ColumnName>, path: &ColumnName) -> (r: bool)
    ensures
        r == paths_view(paths@).contains(path@),
{
    let n: usize = paths.len();
    for i in 0..n
        invariant
            n == paths@.len(),
            forall|j: int| 0 <= j < i ==> #[trigger] paths_view(paths@)[j] != path@,
    {
        assert(paths_view(paths@)[i as int] == paths@[i as int]@);
        if paths[i] == *path {
            return true;
        }
    }
    false
}

/// Filters field changes to keep only the least common ancestors.
///
/// A field whose parent path is also in the list is left out. For example, of "user" and "user.name"
/// only "user" is kept, since reporting "user.name" would be redundant.
pub fn filter_ancestor_fields(fields: Vec<FieldChange>) -> (r: Vec<FieldChange>)
    requires
        forall|i: int| 0 <= i < fields@.len() ==> (#[trigger] fields@[i]).path@.len() >= 1,
    ensures
        changes_view(r@) == without_descendants(changes_view(fields@)),
{
    let ghost all = fields@;
    let ghost changes = changes_view(all);
    let ghost keep = parent_not_in(changes);
    let mut all_paths: Vec<ColumnName> = Vec::new();
    let n: usize = fields.len();
    for i in 0..n
        invariant
            n == fields@.len(),
            changes == changes_view(fields@),
            all_paths@.len() == i,
            forall|j: int| 0 <= j < i ==> (#[trigger] all_paths@[j])@ == changes[j].path,
    {
        all_paths.push(fields[i].path.clone());
    }
    assert(paths_view(all_paths@) =~= change_paths(changes));
    let mut r: Vec<FieldChange> = Vec::new();
    proof {
        reveal(Seq::filter);
        assert(changes_view(r@) =~= changes.take(0).filter(keep));
    }
    for field in it: fields
        invariant
            it.seq() == all,
            changes == changes_view(all),
            keep == parent_not_in(changes),
            paths_view(all_paths@) == change_paths(changes),
            forall|i: int| 0 <= i < all.len() ==> (#[trigger] all[i]).path@.len() >= 1,
            changes_view(r@) == changes.take(it.index() as int).filter(keep),
    {
        let ghost i = it.index() as int;
        let ghost so_far = r@;
        proof {
            assert(field == all[i]);
            assert(changes[i] == field@);
            lemma_filter_step(changes, keep, i);
        }
        // Top-level fields have no parent
        let kept: bool = match field.path.parent() {
            Some(parent) => !contains_path(&all_paths, &parent),
            None => true,
        };
        assert(kept == keep(field@));
        if kept {
            r.push(field);
            assert(changes_view(r@) =~= changes_view(so_far).push(field@));
        }
    }
    assert(changes.take(all.len() as int) =~= changes);
    r
}

/// Checks if a field path has an ancestor in the given list of paths.
///
/// For example, "user" is an ancestor of "user.name" and of "user.address.street". Walks up the
/// parents of `path`, and looks for each of them in the list.
pub fn has_added_ancestor(path: &ColumnName, added_ancestor_paths: &Vec<ColumnName>) -> (r: bool)
    ensures
        r == has_ancestor_in(path@, paths_view(added_ancestor_paths@)),
{
    let ghost paths = paths_view(added_ancestor_paths@);
    let mut curr: Option<ColumnName> = path.parent();
    assert(path@.len() > 1 ==> path@.drop_last() == path@.take(path@.len() - 1));
    let ghost mut depth: int = path@.len() - 1;
    loop
        invariant
            paths == paths_view(added_ancestor_paths@),
            match curr {
                Some(parent) => 0 < depth < path@.len() && parent@ == path@.take(depth),
                None => depth <= 0,
            },
            forall|k: int|
                0 < k < path@.len() && depth < k ==> !paths.contains(#[trigger] path@.take(k)),
        decreases depth,
    {
        match curr {
            Some(parent) => {
                if contains_path(added_ancestor_paths, &parent) {
                    return true;
                }
                curr = parent.parent();
                proof {
                    assert(depth > 1 ==> path@.take(depth).drop_last() =~= path@.take(depth - 1));
                    depth = depth - 1;
                }
            },
            None => {
                return false;
            },
        }
    }
}

} // verus!
