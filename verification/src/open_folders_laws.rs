//! What holds of the folders of the active workspace: which branch each is on, which is active,
//! and in which order they come.
use crate::model::{OpenFolderView, RemoteConnection};
use crate::open_folders;
use crate::open_folders::{OpenWorktree, RepositoryInfo};
use crate::path;
use crate::path::{ComponentView, PathView, ProjectPath};
use crate::seqs;
use crate::text;
use vstd::prelude::*;

verus! {

proof fn lemma_innermost_exists(
    repositories: Seq<RepositoryInfo>,
    path: Seq<ComponentView>,
    n: int,
    i: int,
) -> (b: int)
    requires
        0 <= i < n <= repositories.len(),
        repositories[i].path@.components.is_prefix_of(path),
    ensures
        0 <= b < n,
        repositories[b].path@.components.is_prefix_of(path),
        forall|j: int|
            0 <= j < n && (#[trigger] repositories[j]).path@.components.is_prefix_of(path)
                ==> repositories[j].path@.raw.len() < repositories[b].path@.raw.len() || (
            repositories[j].path@.raw.len() == repositories[b].path@.raw.len() && j <= b),
    decreases n,
{
    let l = n - 1;
    if i < l {
        let b = lemma_innermost_exists(repositories, path, l, i);
        if repositories[l].path@.components.is_prefix_of(path)
            && repositories[b].path@.raw.len() <= repositories[l].path@.raw.len() {
            l
        } else {
            b
        }
    } else if exists|k: int|
        0 <= k < l && (#[trigger] repositories[k]).path@.components.is_prefix_of(path) {
        let k = choose|k: int|
            0 <= k < l && (#[trigger] repositories[k]).path@.components.is_prefix_of(path);
        let b = lemma_innermost_exists(repositories, path, l, k);
        if repositories[b].path@.raw.len() <= repositories[l].path@.raw.len() {
            l
        } else {
            b
        }
    } else {
        l
    }
}

/// A folder in a repository, at whatever depth, is on the branch of the repository with the
/// longest working directory that it lies in; the last of several.
pub proof fn folders_are_on_the_innermost_branch(
    repositories: Seq<RepositoryInfo>,
    path: Seq<ComponentView>,
    i: int,
) -> (b: int)
    requires
        0 <= i < repositories.len(),
        repositories[i].path@.components.is_prefix_of(path),
    ensures
        0 <= b < repositories.len(),
        repositories[b].path@.components.is_prefix_of(path),
        forall|j: int|
            0 <= j < repositories.len() && (
            #[trigger] repositories[j]).path@.components.is_prefix_of(path)
                ==> repositories[j].path@.raw.len() < repositories[b].path@.raw.len() || (
            repositories[j].path@.raw.len() == repositories[b].path@.raw.len() && j <= b),
        open_folders::branch_of(repositories, path) is Some == repositories[b].branch is Some,
        repositories[b].branch is Some ==> open_folders::branch_of(repositories, path) == Some(
            repositories[b].branch->0@,
        ),
{
    let b = lemma_innermost_exists(repositories, path, repositories.len() as int, i);
    assert(open_folders::is_innermost(repositories, path, b)) by {
        assert forall|j: int|
            0 <= j < repositories.len() && open_folders::covers(
                (#[trigger] repositories[j]).path@.components,
                path,
            ) implies repositories[j].path@.raw.len() < repositories[b].path@.raw.len() || (
        repositories[j].path@.raw.len() == repositories[b].path@.raw.len() && j <= b) by {
            if repositories[j].path@.components == path {
                assert(path.is_prefix_of(path)) by {
                    assert(path =~= path.subrange(0, path.len() as int));
                }
            }
        }
    }
    let c = choose|c: int| open_folders::is_innermost(repositories, path, c);
    assert(open_folders::is_innermost(repositories, path, c));
    assert(open_folders::covers(repositories[b].path@.components, path));
    assert(open_folders::covers(repositories[c].path@.components, path));
    b
}

/// A folder in no repository is on no branch.
pub proof fn folders_outside_repositories_have_no_branch(
    repositories: Seq<RepositoryInfo>,
    path: Seq<ComponentView>,
)
    requires
        forall|i: int|
            0 <= i < repositories.len() ==> !(
            #[trigger] repositories[i]).path@.components.is_prefix_of(path),
    ensures
        open_folders::branch_of(repositories, path) is None,
{
    assert forall|i: int| !open_folders::is_innermost(repositories, path, i) by {
        if open_folders::is_innermost(repositories, path, i) {
            if repositories[i].path@.components == path {
                assert(path =~= path.subrange(0, path.len() as int));
                assert(repositories[i].path@.components.is_prefix_of(path));
            }
        }
    }
}

/// The entry of folder `i` is that of its path, with the label that was made for it and the
/// host of the workspace.
pub open spec fn entry_of(
    v: OpenFolderView,
    worktrees: Seq<OpenWorktree>,
    connection_options: Option<RemoteConnection>,
    labels: Seq<String>,
    i: int,
) -> bool {
    &&& 0 <= i < worktrees.len()
    &&& v.worktree_id == worktrees[i].id
    &&& v.path == worktrees[i].path@
    &&& i < labels.len() ==> v.name == labels[i]@
    &&& i >= labels.len() ==> v.name.len() == 0
    &&& v.connection_options == connection_options
}

/// A single folder, or none, is not listed.
pub proof fn a_single_folder_is_not_listed(
    worktrees: Seq<OpenWorktree>,
    active_repository: Option<ProjectPath>,
    repositories: Seq<RepositoryInfo>,
    connection_options: Option<RemoteConnection>,
    labels: Seq<String>,
)
    requires
        worktrees.len() < 2,
    ensures
        open_folders::open_folder_list(
            worktrees,
            active_repository,
            repositories,
            connection_options,
            labels,
        ).len() == 0,
{
    open_folders::lemma_by_name();
    seqs::lemma_stable_sort(
        open_folders::folder_entries(
            worktrees,
            active_repository,
            repositories,
            connection_options,
            labels,
        ),
        open_folders::by_name(),
    );
}

/// Of several folders each has its entry, on its branch, and there are no other entries.
pub proof fn every_folder_has_its_entry(
    worktrees: Seq<OpenWorktree>,
    active_repository: Option<ProjectPath>,
    repositories: Seq<RepositoryInfo>,
    connection_options: Option<RemoteConnection>,
    labels: Seq<String>,
    i: int,
) -> (k: int)
    requires
        worktrees.len() >= 2,
        0 <= i < worktrees.len(),
    ensures
        ({
            let r = open_folders::open_folder_list(
                worktrees,
                active_repository,
                repositories,
                connection_options,
                labels,
            );
            &&& r.len() == worktrees.len()
            &&& 0 <= k < r.len()
            &&& entry_of(r[k], worktrees, connection_options, labels, i)
            &&& r[k].branch == open_folders::branch_of(repositories, worktrees[i].path@.components)
        }),
{
    let le = open_folders::by_name();
    let entries = open_folders::folder_entries(
        worktrees,
        active_repository,
        repositories,
        connection_options,
        labels,
    );
    let r = seqs::stable_sort(entries, le);
    open_folders::lemma_by_name();
    seqs::lemma_stable_sort(entries, le);
    entries.to_multiset_ensures();
    r.to_multiset_ensures();
    assert(entries.contains(entries[i]));
    assert(entries.to_multiset().count(entries[i]) > 0);
    assert(r.contains(entries[i]));
    choose|k: int| 0 <= k < r.len() && r[k] == entries[i]
}

/// The entries come by their names in lower case; where these agree, in the order of the folders.
pub proof fn folders_come_by_name(
    worktrees: Seq<OpenWorktree>,
    active_repository: Option<ProjectPath>,
    repositories: Seq<RepositoryInfo>,
    connection_options: Option<RemoteConnection>,
    labels: Seq<String>,
    j: int,
    k: int,
) -> (x: (int, int))
    requires
        0 <= j < k < open_folders::open_folder_list(
            worktrees,
            active_repository,
            repositories,
            connection_options,
            labels,
        ).len(),
    ensures
        ({
            let r = open_folders::open_folder_list(
                worktrees,
                active_repository,
                repositories,
                connection_options,
                labels,
            );
            let a = text::lowercase(r[j].name);
            let b = text::lowercase(r[k].name);
            &&& entry_of(r[j], worktrees, connection_options, labels, x.0)
            &&& entry_of(r[k], worktrees, connection_options, labels, x.1)
            &&& x.0 != x.1
            &&& !text::text_before(b, a)
            &&& a == b ==> x.0 < x.1
        }),
{
    let le = open_folders::by_name();
    let entries = open_folders::folder_entries(
        worktrees,
        active_repository,
        repositories,
        connection_options,
        labels,
    );
    open_folders::lemma_by_name();
    seqs::lemma_stable_sort(entries, le);
    seqs::lemma_stable_sort_order(entries, le, j, k)
}

/// With an active repository the active folder is the first that lies in it, at whatever depth;
/// an entry is active exactly where it has the key of that folder.
pub proof fn the_first_folder_in_the_active_repository_is_active(
    worktrees: &Vec<OpenWorktree>,
    repository: ProjectPath,
    first: int,
    repositories: Seq<RepositoryInfo>,
    connection_options: Option<RemoteConnection>,
    labels: Seq<String>,
    k: int,
)
    requires
        0 <= first < worktrees@.len(),
        repository@.components.is_prefix_of(worktrees@[first].path@.components),
        forall|i: int|
            0 <= i < first ==> !repository@.components.is_prefix_of(
                (#[trigger] worktrees@[i]).path@.components,
            ),
        0 <= k < open_folders::open_folder_list(
            worktrees@,
            Some(repository),
            repositories,
            connection_options,
            labels,
        ).len(),
    ensures
        ({
            let r = open_folders::open_folder_list(
                worktrees@,
                Some(repository),
                repositories,
                connection_options,
                labels,
            );
            r[k].is_active <==> r[k].worktree_id == worktrees@[first].id
        }),
{
    let p = open_folders::covered_by(repository@.components);
    assert forall|i: int| 0 <= i < first implies !p(#[trigger] worktrees@[i]) by {
        let c = worktrees@[i].path@.components;
        assert(c =~= c.subrange(0, c.len() as int));
    }
    assert(worktrees@.len() == worktrees.len());
    assert(seqs::is_first(worktrees@, p, first));
    seqs::lemma_first_index_is(worktrees@, p, first);
    lemma_active_is(worktrees@, Some(repository), repositories, connection_options, labels, k);
}

/// Where no folder lies in the active repository none is active; without an active repository it
/// is the first folder.
pub proof fn other_active_folders(
    worktrees: Seq<OpenWorktree>,
    active_repository: Option<ProjectPath>,
    repositories: Seq<RepositoryInfo>,
    connection_options: Option<RemoteConnection>,
    labels: Seq<String>,
    k: int,
)
    requires
        0 <= k < open_folders::open_folder_list(
            worktrees,
            active_repository,
            repositories,
            connection_options,
            labels,
        ).len(),
    ensures
        ({
            let r = open_folders::open_folder_list(
                worktrees,
                active_repository,
                repositories,
                connection_options,
                labels,
            );
            &&& active_repository is None ==> (r[k].is_active <==> r[k].worktree_id
                == worktrees[0].id)
            &&& active_repository is Some && (forall|i: int|
                0 <= i < worktrees.len() ==> !active_repository->0@.components.is_prefix_of(
                    (#[trigger] worktrees[i]).path@.components,
                )) ==> !r[k].is_active
        }),
{
    lemma_active_is(worktrees, active_repository, repositories, connection_options, labels, k);
    if active_repository is Some && (forall|i: int|
        0 <= i < worktrees.len() ==> !active_repository->0@.components.is_prefix_of(
            (#[trigger] worktrees[i]).path@.components,
        )) {
        let p = open_folders::covered_by(active_repository->0@.components);
        assert forall|i: int| 0 <= i < worktrees.len() implies !p(#[trigger] worktrees[i]) by {
            let c = worktrees[i].path@.components;
            assert(c =~= c.subrange(0, c.len() as int));
        }
        seqs::lemma_first_index_none(worktrees, p);
    }
}

proof fn lemma_active_is(
    worktrees: Seq<OpenWorktree>,
    active_repository: Option<ProjectPath>,
    repositories: Seq<RepositoryInfo>,
    connection_options: Option<RemoteConnection>,
    labels: Seq<String>,
    k: int,
)
    requires
        0 <= k < open_folders::open_folder_list(
            worktrees,
            active_repository,
            repositories,
            connection_options,
            labels,
        ).len(),
    ensures
        worktrees.len() >= 2,
        ({
            let r = open_folders::open_folder_list(
                worktrees,
                active_repository,
                repositories,
                connection_options,
                labels,
            );
            r[k].is_active <==> open_folders::active_id(worktrees, active_repository) == Some(
                r[k].worktree_id,
            )
        }),
{
    let le = open_folders::by_name();
    let entries = open_folders::folder_entries(
        worktrees,
        active_repository,
        repositories,
        connection_options,
        labels,
    );
    let r = seqs::stable_sort(entries, le);
    open_folders::lemma_by_name();
    seqs::lemma_stable_sort(entries, le);
    entries.to_multiset_ensures();
    r.to_multiset_ensures();
    assert(r.contains(r[k]));
    assert(r.to_multiset().count(r[k]) > 0);
    assert(entries.contains(r[k]));
    let i = choose|i: int| 0 <= i < entries.len() && entries[i] == r[k];
    assert(entries[i].worktree_id == worktrees[i].id);
}

/// The paths to tell apart are those of the folders: each is there once, and nothing else.
pub proof fn folder_paths_are_told_apart(
    worktrees: Seq<OpenWorktree>,
    r: Seq<ProjectPath>,
    i: int,
    k: int,
) -> (x: (int, int))
    requires
        open_folders::folder_paths(worktrees, r),
        0 <= i < worktrees.len(),
        0 <= k < r.len(),
    ensures
        0 <= x.0 < r.len(),
        r[x.0]@.components == worktrees[i].path@.components,
        0 <= x.1 < worktrees.len(),
        worktrees[x.1].path@ == r[k]@,
        forall|j: int|
            0 <= j < r.len() && j != k ==> (#[trigger] r[j])@.components != r[k]@.components,
{
    let key = worktrees[i].path@.components;
    let views = seqs::views(r);
    assert(open_folders::worktree_path(worktrees, key));
    assert(path::holds_path(views, key));
    assert(open_folders::from_worktree(worktrees, worktrees.len() as int, r[k]@));
    path::lemma_path_order();
    assert forall|j: int| 0 <= j < r.len() && j != k implies (#[trigger] r[j])@.components
        != r[k]@.components by {
        assert(views[k] == r[k]@ && views[j] == r[j]@);
        if k < j {
            assert(path::path_before(views[k].components, views[j].components));
        } else {
            assert(path::path_before(views[j].components, views[k].components));
        }
    }
    let a = choose|a: int| 0 <= a < views.len() && (#[trigger] views[a]).components == key;
    let b = choose|b: int| 0 <= b < worktrees.len() && (#[trigger] worktrees[b]).path@ == r[k]@;
    (a, b)
}

/// A label is wanted for each folder, in their order, with the detail at the place of its path;
/// with none for a path that was not told apart.
pub proof fn labels_are_wanted_for_each_folder(
    worktrees: Seq<OpenWorktree>,
    all_paths: Seq<PathView>,
    details: Seq<usize>,
    i: int,
    j: int,
)
    requires
        0 <= i < worktrees.len(),
        all_paths.len() <= usize::MAX,
    ensures
        ({
            let r = open_folders::wanted_folder_labels(worktrees, all_paths, details);
            &&& r.len() == worktrees.len()
            &&& r[i].path == worktrees[i].path@
            &&& 0 <= j < all_paths.len() && j < details.len() && all_paths[j].components
                == worktrees[i].path@.components && (forall|l: int|
                0 <= l < j ==> (#[trigger] all_paths[l]).components
                    != worktrees[i].path@.components) ==> r[i].detail == details[j]
            &&& (forall|l: int|
                0 <= l < all_paths.len() ==> (#[trigger] all_paths[l]).components
                    != worktrees[i].path@.components) ==> r[i].detail == 0
        }),
{
    let key = worktrees[i].path@.components;
    let q = |p: PathView| p.components == key;
    if 0 <= j < all_paths.len() && all_paths[j].components == key && (forall|l: int|
        0 <= l < j ==> (#[trigger] all_paths[l]).components != key) {
        assert(seqs::is_first(all_paths, q, j));
        seqs::lemma_first_index_is(all_paths, q, j);
    }
    if forall|l: int| 0 <= l < all_paths.len() ==> (#[trigger] all_paths[l]).components != key {
        seqs::lemma_first_index_none(all_paths, q);
    }
}

/// Two folders have two entries.
pub proof fn each_folder_has_an_entry(
    worktrees: Seq<OpenWorktree>,
    active_repository: Option<ProjectPath>,
    repositories: Seq<RepositoryInfo>,
    connection_options: Option<RemoteConnection>,
    labels: Seq<String>,
    i: int,
    j: int,
) -> (x: (int, int))
    requires
        0 <= i < j < worktrees.len(),
    ensures
        ({
            let r = open_folders::open_folder_list(
                worktrees,
                active_repository,
                repositories,
                connection_options,
                labels,
            );
            &&& 0 <= x.0 < r.len()
            &&& 0 <= x.1 < r.len()
            &&& x.0 != x.1
            &&& entry_of(r[x.0], worktrees, connection_options, labels, i)
            &&& entry_of(r[x.1], worktrees, connection_options, labels, j)
        }),
{
    let entries = open_folders::folder_entries(
        worktrees,
        active_repository,
        repositories,
        connection_options,
        labels,
    );
    seqs::lemma_stable_sort_places(entries, open_folders::by_name(), i, j)
}

/// The paths to tell apart come in the order of paths.
pub proof fn paths_to_tell_apart_are_in_order(
    worktrees: Seq<OpenWorktree>,
    r: Seq<ProjectPath>,
    i: int,
    j: int,
)
    requires
        open_folders::folder_paths(worktrees, r),
        0 <= i < j < r.len(),
    ensures
        path::path_before(r[i]@.components, r[j]@.components),
{
    let views = seqs::views(r);
    assert(views[i] == r[i]@ && views[j] == r[j]@);
}

proof fn lemma_by_key()
    ensures
        seqs::is_preorder(open_folders::by_key()),
{
    let le = open_folders::by_key();
    let f = |a: Seq<char>, b: Seq<char>| text::text_before(a, b);
    text::lemma_text_order();
    assert forall|a: (Seq<char>, OpenFolderView), b: (Seq<char>, OpenFolderView)| #[trigger]
        le(a, b) || le(b, a) by {
        if f(b.0, a.0) && f(a.0, b.0) {
            assert(f(a.0, a.0));
        }
    }
    assert forall|
        a: (Seq<char>, OpenFolderView),
        b: (Seq<char>, OpenFolderView),
        c: (Seq<char>, OpenFolderView),
    | #[trigger]
        le(a, b) && #[trigger] le(b, c) implies le(a, c) by {
        assert(a.0 == b.0 || f(a.0, b.0) || f(b.0, a.0));
        assert(b.0 == c.0 || f(b.0, c.0) || f(c.0, b.0));
        if f(c.0, a.0) {
            if f(a.0, b.0) {
                assert(f(c.0, b.0));
            }
        }
    }
}

/// Sorting by keys keeps every entry, and puts none before one with a lesser key; entries with
/// the same key stay as they were.
pub proof fn entries_stand_by_their_keys(
    keys: Seq<Seq<char>>,
    entries: Seq<OpenFolderView>,
    i: int,
    j: int,
) -> (x: (int, int))
    requires
        keys.len() == entries.len(),
        0 <= i < j < entries.len(),
    ensures
        open_folders::entries_by_key(keys, entries).len() == entries.len(),
        0 <= x.0 < entries.len(),
        0 <= x.1 < entries.len(),
        x.0 != x.1,
        open_folders::entries_by_key(keys, entries)[i] == entries[x.0],
        open_folders::entries_by_key(keys, entries)[j] == entries[x.1],
        !text::text_before(keys[x.1], keys[x.0]),
        keys[x.0] == keys[x.1] ==> x.0 < x.1,
{
    let all = open_folders::keyed(keys, entries);
    let le = open_folders::by_key();
    lemma_by_key();
    seqs::lemma_stable_sort(all, le);
    let (a, b) = seqs::lemma_stable_sort_order(all, le, i, j);
    if keys[a] == keys[b] {
        let f = |a: Seq<char>, b: Seq<char>| text::text_before(a, b);
        text::lemma_text_order();
        assert(!f(keys[a], keys[a]));
        assert(le(all[b], all[a]));
    }
    (a, b)
}

/// Two entries that are sorted by keys have two places.
pub proof fn entries_by_key_are_kept(
    keys: Seq<Seq<char>>,
    entries: Seq<OpenFolderView>,
    a: int,
    b: int,
) -> (x: (int, int))
    requires
        keys.len() == entries.len(),
        0 <= a < b < entries.len(),
    ensures
        0 <= x.0 < open_folders::entries_by_key(keys, entries).len(),
        0 <= x.1 < open_folders::entries_by_key(keys, entries).len(),
        x.0 != x.1,
        open_folders::entries_by_key(keys, entries)[x.0] == entries[a],
        open_folders::entries_by_key(keys, entries)[x.1] == entries[b],
{
    let all = open_folders::keyed(keys, entries);
    seqs::lemma_stable_sort_places(all, open_folders::by_key(), a, b)
}

} // verus!
