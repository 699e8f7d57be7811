//! The folders of the active workspace, with their names and branches.
use crate::model;
use crate::model::{OpenFolderEntry, OpenFolderView, RemoteConnection, WorktreeId};
use crate::path;
use crate::path::{ComponentView, PathView, ProjectPath};
use crate::recents;
use crate::recents::{LabelRequest, LabelRequestView};
use crate::seqs;
use crate::text;
use vstd::prelude::*;

verus! {

/// A visible folder of the active workspace.
pub struct OpenWorktree {
    pub id: WorktreeId,
    pub path: ProjectPath,
}

/// A repository of the active workspace: its working directory and the branch it is on.
pub struct RepositoryInfo {
    pub path: ProjectPath,
    pub branch: Option<String>,
}

/// The working directory is the path or contains it.
pub open spec fn covers(repository: Seq<ComponentView>, path: Seq<ComponentView>) -> bool {
    repository == path || repository.is_prefix_of(path)
}

fn is_covered(path: &ProjectPath, repository: &ProjectPath) -> (r: bool)
    ensures
        r == covers(repository@.components, path@.components),
{
    path.same_path(repository) || path.starts_with(repository)
}

/// Repository `i` is the innermost one that covers the path: the one with the longest working
/// directory, the last of several.
pub open spec fn is_innermost(
    repositories: Seq<RepositoryInfo>,
    path: Seq<ComponentView>,
    i: int,
) -> bool {
    &&& 0 <= i < repositories.len()
    &&& covers(repositories[i].path@.components, path)
    &&& forall|j: int|
        0 <= j < repositories.len() && covers(
            (#[trigger] repositories[j]).path@.components,
            path,
        ) ==> repositories[j].path@.raw.len() < repositories[i].path@.raw.len() || (
        repositories[j].path@.raw.len() == repositories[i].path@.raw.len() && j <= i)
}

/// The branch of the innermost repository that covers the path.
pub open spec fn branch_of(repositories: Seq<RepositoryInfo>, path: Seq<ComponentView>) -> Option<
    Seq<char>,
> {
    if exists|i: int| is_innermost(repositories, path, i) {
        path::text_option(
            repositories[choose|i: int| is_innermost(repositories, path, i)].branch,
        )
    } else {
        None
    }
}

proof fn lemma_innermost_is(
    repositories: Seq<RepositoryInfo>,
    path: Seq<ComponentView>,
    i: int,
)
    requires
        is_innermost(repositories, path, i),
    ensures
        branch_of(repositories, path) == path::text_option(repositories[i].branch),
{
    let c = choose|c: int| is_innermost(repositories, path, c);
    assert(is_innermost(repositories, path, c));
    assert(covers(repositories[c].path@.components, path));
    assert(covers(repositories[i].path@.components, path));
}

pub fn get_branch_for_worktree(path: &ProjectPath, repositories: &Vec<RepositoryInfo>) -> (r:
    Option<String>)
    ensures
        path::text_option(r) == branch_of(repositories@, path@.components),
{
    let ghost key = path@.components;
    let mut best: Option<usize> = None;
    let mut i: usize = 0;
    while i < repositories.len()
        invariant
            i <= repositories@.len(),
            key == path@.components,
            match best {
                Some(b) => b < i && is_innermost(repositories@.take(i as int), key, b as int),
                None => forall|j: int|
                    0 <= j < i ==> !covers((#[trigger] repositories@[j]).path@.components, key),
            },
        decreases repositories@.len() - i,
    {
        let ghost now = repositories@.take(i as int);
        let ghost next = repositories@.take(i + 1);
        proof {
            assert forall|j: int| 0 <= j < i implies now[j] == next[j] && next[j]
                == repositories@[j] by {}
            assert(next[i as int] == repositories@[i as int]);
        }
        if is_covered(path, &repositories[i].path) {
            let better: bool = match best {
                Some(b) => repositories[b].path.raw.len() <= repositories[i].path.raw.len(),
                None => true,
            };
            if better {
                best = Some(i);
                assert(is_innermost(next, key, i as int)) by {
                    assert forall|j: int| 0 <= j < next.len() && covers(
                        (#[trigger] next[j]).path@.components,
                        key,
                    ) implies next[j].path@.raw.len() < next[i as int].path@.raw.len() || (
                    next[j].path@.raw.len() == next[i as int].path@.raw.len() && j <= i) by {
                        if j < i {
                            assert(now[j] == next[j]);
                        }
                    }
                }
            }
        }
        proof {
            if let Some(b) = best {
                assert forall|j: int| 0 <= j < next.len() && covers(
                    (#[trigger] next[j]).path@.components,
                    key,
                ) implies next[j].path@.raw.len() < next[b as int].path@.raw.len() || (
                next[j].path@.raw.len() == next[b as int].path@.raw.len() && j <= b) by {
                    if j < i {
                        assert(now[j] == next[j]);
                    }
                }
                assert(is_innermost(next, key, b as int));
            }
        }
        i = i + 1;
    }
    assert(repositories@.take(i as int) =~= repositories@);
    match best {
        Some(b) => {
            proof {
                lemma_innermost_is(repositories@, key, b as int);
            }
            match &repositories[b].branch {
                Some(branch) => Some(branch.clone()),
                None => None,
            }
        },
        None => {
            proof {
                assert forall|j: int| !is_innermost(repositories@, key, j) by {
                    if is_innermost(repositories@, key, j) {
                        assert(!covers(repositories@[j].path@.components, key));
                    }
                }
            }
            None
        },
    }
}

/// The repository covers the folder.
pub open spec fn covered_by(repository: Seq<ComponentView>) -> spec_fn(OpenWorktree) -> bool {
    |w: OpenWorktree| covers(repository, w.path@.components)
}

/// The active folder: the first that the active repository covers, or the first of all where no
/// repository is active.
pub open spec fn active_id(
    worktrees: Seq<OpenWorktree>,
    active_repository: Option<ProjectPath>,
) -> Option<WorktreeId> {
    match active_repository {
        Some(repository) => match seqs::first_index(
            worktrees,
            covered_by(repository@.components),
        ) {
            Some(i) => Some(worktrees[i as int].id),
            None => None,
        },
        None => if worktrees.len() > 0 {
            Some(worktrees[0].id)
        } else {
            None
        },
    }
}

fn active_worktree_id(
    worktrees: &Vec<OpenWorktree>,
    active_repository: &Option<ProjectPath>,
) -> (r: Option<WorktreeId>)
    ensures
        r == active_id(worktrees@, *active_repository),
{
    match active_repository {
        Some(repository) => {
            let ghost p = covered_by(repository@.components);
            let mut i: usize = 0;
            while i < worktrees.len()
                invariant
                    i <= worktrees@.len(),
                    *active_repository == Some(*repository),
                    p == covered_by(repository@.components),
                    forall|j: int| 0 <= j < i ==> !p(#[trigger] worktrees@[j]),
                decreases worktrees@.len() - i,
            {
                if is_covered(&worktrees[i].path, repository) {
                    proof {
                        assert(seqs::is_first(worktrees@, p, i as int));
                        seqs::lemma_first_index_is(worktrees@, p, i as int);
                    }
                    return Some(worktrees[i].id);
                }
                i = i + 1;
            }
            proof {
                seqs::lemma_first_index_none(worktrees@, p);
            }
            None
        },
        None => {
            if worktrees.len() > 0 {
                Some(worktrees[0].id)
            } else {
                None
            }
        },
    }
}

/// Some folder has the path `key`.
pub open spec fn worktree_path(worktrees: Seq<OpenWorktree>, key: Seq<ComponentView>) -> bool {
    exists|i: int| 0 <= i < worktrees.len() && (#[trigger] worktrees[i]).path@.components == key
}

/// `v` is the path of one of the first `n` folders.
pub open spec fn from_worktree(worktrees: Seq<OpenWorktree>, n: int, v: PathView) -> bool {
    exists|i: int| 0 <= i < n && (#[trigger] worktrees[i]).path@ == v
}

/// These are the paths of the folders, in order, each once.
pub open spec fn folder_paths(worktrees: Seq<OpenWorktree>, r: Seq<ProjectPath>) -> bool {
    &&& path::strictly_sorted(seqs::views(r))
    &&& forall|key: Seq<ComponentView>| #[trigger]
        path::holds_path(seqs::views(r), key) <==> worktree_path(worktrees, key)
    &&& forall|k: int|
        0 <= k < r.len() ==> from_worktree(worktrees, worktrees.len() as int, (#[trigger] r[k])@)
}

/// The paths of the folders, in order, each once: what labels have to tell apart.
pub fn open_folder_paths(worktrees: &Vec<OpenWorktree>) -> (r: Vec<ProjectPath>)
    ensures
        folder_paths(worktrees@, r@),
{
    let mut r: Vec<ProjectPath> = Vec::new();
    let mut i: usize = 0;
    while i < worktrees.len()
        invariant
            i <= worktrees@.len(),
            path::strictly_sorted(seqs::views(r@)),
            forall|key: Seq<ComponentView>| #[trigger]
                path::holds_path(seqs::views(r@), key) <==> exists|j: int|
                    0 <= j < i && (#[trigger] worktrees@[j]).path@.components == key,
            forall|k: int|
                0 <= k < r@.len() ==> from_worktree(worktrees@, i as int, (#[trigger] r@[k])@),
        decreases worktrees@.len() - i,
    {
        let ghost before = r@;
        path::insert_distinct(&mut r, &worktrees[i].path);
        proof {
            assert forall|k: int| 0 <= k < r@.len() implies from_worktree(
                worktrees@,
                i + 1,
                (#[trigger] r@[k])@,
            ) by {
                if r@[k]@ == worktrees@[i as int].path@ {
                } else {
                    let m = choose|m: int|
                        0 <= m < seqs::views(before).len() && seqs::views(before)[m] == r@[k]@;
                    assert(from_worktree(worktrees@, i as int, before[m]@));
                }
            }
            assert forall|key: Seq<ComponentView>| #[trigger]
                path::holds_path(seqs::views(r@), key) <==> exists|j: int|
                0 <= j < i + 1 && (#[trigger] worktrees@[j]).path@.components == key by {
                if path::holds_path(seqs::views(r@), key) {
                    if path::holds_path(seqs::views(before), key) {
                        let j = choose|j: int|
                            0 <= j < i && (#[trigger] worktrees@[j]).path@.components == key;
                        assert(worktrees@[j].path@.components == key);
                    } else {
                        assert(worktrees@[i as int].path@.components == key);
                    }
                }
                if exists|j: int|
                    0 <= j < i + 1 && (#[trigger] worktrees@[j]).path@.components == key {
                    let j = choose|j: int|
                        0 <= j < i + 1 && (#[trigger] worktrees@[j]).path@.components == key;
                    if j < i {
                        assert(path::holds_path(seqs::views(before), key));
                    }
                }
            }
        }
        i = i + 1;
    }
    r
}

/// The labels that are wanted, folder by folder.
pub open spec fn wanted_folder_labels(
    worktrees: Seq<OpenWorktree>,
    all_paths: Seq<PathView>,
    details: Seq<usize>,
) -> Seq<LabelRequestView> {
    Seq::new(
        worktrees.len(),
        |i: int|
            LabelRequestView {
                path: worktrees[i].path@,
                detail: recents::detail_of(all_paths, details, worktrees[i].path@.components),
            },
    )
}

/// The labels that are wanted, folder by folder; `details` are those found for `all_paths`.
pub fn open_folder_labels(
    worktrees: &Vec<OpenWorktree>,
    all_paths: &Vec<ProjectPath>,
    details: &Vec<usize>,
) -> (r: Vec<LabelRequest>)
    ensures
        seqs::views(r@) == wanted_folder_labels(worktrees@, seqs::views(all_paths@), details@),
{
    let mut r: Vec<LabelRequest> = Vec::new();
    let mut i: usize = 0;
    while i < worktrees.len()
        invariant
            i <= worktrees@.len(),
            r@.len() == i,
            forall|j: int|
                0 <= j < i ==> (#[trigger] r@[j])@ == (LabelRequestView {
                    path: worktrees@[j].path@,
                    detail: recents::detail_of(
                        seqs::views(all_paths@),
                        details@,
                        worktrees@[j].path@.components,
                    ),
                }),
        decreases worktrees@.len() - i,
    {
        r.push(
            LabelRequest {
                path: worktrees[i].path.clone(),
                detail: recents::detail_for(all_paths, details, &worktrees[i].path),
            },
        );
        i = i + 1;
    }
    assert(seqs::views(r@) =~= wanted_folder_labels(
        worktrees@,
        seqs::views(all_paths@),
        details@,
    ));
    r
}

/// An entry with the text that it is sorted by.
pub open spec fn keyed(keys: Seq<Seq<char>>, entries: Seq<OpenFolderView>) -> Seq<
    (Seq<char>, OpenFolderView),
> {
    Seq::new(entries.len(), |i: int| (keys[i], entries[i]))
}

/// Entries are ordered by their keys.
pub open spec fn by_key() -> spec_fn(
    (Seq<char>, OpenFolderView),
    (Seq<char>, OpenFolderView),
) -> bool {
    |a: (Seq<char>, OpenFolderView), b: (Seq<char>, OpenFolderView)| !text::text_before(b.0, a.0)
}

/// Entries are ordered by their names, without regard to case.
pub open spec fn by_name() -> spec_fn(OpenFolderView, OpenFolderView) -> bool {
    |a: OpenFolderView, b: OpenFolderView|
        !text::text_before(text::lowercase(b.name), text::lowercase(a.name))
}

pub open spec fn with_key() -> spec_fn(OpenFolderView) -> (Seq<char>, OpenFolderView) {
    |e: OpenFolderView| (text::lowercase(e.name), e)
}

pub open spec fn without_key() -> spec_fn((Seq<char>, OpenFolderView)) -> OpenFolderView {
    |e: (Seq<char>, OpenFolderView)| e.1
}

/// The entries in the order of their keys.
pub open spec fn entries_by_key(keys: Seq<Seq<char>>, entries: Seq<OpenFolderView>) -> Seq<
    OpenFolderView,
> {
    seqs::stable_sort(keyed(keys, entries), by_key()).map_values(without_key())
}

/// The entries in the order of their keys; entries with the same key keep their order.
pub fn sort_by_keys(entries: Vec<OpenFolderEntry>, keys: Vec<String>) -> (r: Vec<OpenFolderEntry>)
    requires
        keys@.len() == entries@.len(),
    ensures
        seqs::views(r@) == entries_by_key(seqs::views(keys@), seqs::views(entries@)),
{
    let ghost n = entries@.len();
    let ghost all = keyed(seqs::views(keys@), seqs::views(entries@));
    let ghost all_entries = entries@;
    let ghost all_keys = keys@;
    let mut entries: Vec<OpenFolderEntry> = entries;
    let mut keys: Vec<String> = keys;
    let mut r: Vec<OpenFolderEntry> = Vec::new();
    let mut sorted_keys: Vec<String> = Vec::new();
    let ghost mut done: int = 0;
    proof {
        assert(all.take(0) =~= Seq::empty());
        assert(keyed(seqs::views(sorted_keys@), seqs::views(r@)) =~= Seq::empty());
        assert(all_entries.skip(0) =~= all_entries);
        assert(all_keys.skip(0) =~= all_keys);
    }
    while entries.len() > 0
        invariant
            0 <= done <= n,
            n == all.len(),
            n == all_entries.len(),
            n == all_keys.len(),
            all == keyed(seqs::views(all_keys), seqs::views(all_entries)),
            entries@ == all_entries.skip(done),
            keys@ == all_keys.skip(done),
            sorted_keys@.len() == r@.len(),
            keyed(seqs::views(sorted_keys@), seqs::views(r@)) == seqs::stable_sort(
                all.take(done),
                by_key(),
            ),
        decreases entries@.len(),
    {
        let ghost sorted = seqs::stable_sort(all.take(done), by_key());
        let entry: OpenFolderEntry = entries.remove(0);
        let key: String = keys.remove(0);
        let ghost x = (key@, entry@);
        assert(x == all[done]);
        let mut i: usize = r.len();
        while i > 0 && text::is_text_before(key.as_str(), sorted_keys[i - 1].as_str())
            invariant
                i <= r@.len(),
                sorted_keys@.len() == r@.len(),
                sorted == keyed(seqs::views(sorted_keys@), seqs::views(r@)),
                x == (key@, entry@),
                forall|j: int| i <= j < r@.len() ==> !by_key()(#[trigger] sorted[j], x),
            decreases i,
        {
            assert(sorted[i - 1].0 == sorted_keys@[i - 1]@);
            i = i - 1;
        }
        proof {
            if i > 0 {
                assert(sorted[i - 1].0 == sorted_keys@[i - 1]@);
            }
            seqs::lemma_insertion_point_is(sorted, x, by_key(), i as int);
            seqs::lemma_stable_sort_push(all.take(done), x, by_key());
            assert(all.take(done + 1) =~= all.take(done).push(x));
        }
        let ghost r_before = r@;
        let ghost keys_before = sorted_keys@;
        r.insert(i, entry);
        sorted_keys.insert(i, key);
        proof {
            assert(keyed(seqs::views(sorted_keys@), seqs::views(r@)) =~= sorted.insert(
                i as int,
                x,
            ));
            assert(all_entries.skip(done).remove(0) =~= all_entries.skip(done + 1));
            assert(all_keys.skip(done).remove(0) =~= all_keys.skip(done + 1));
            done = done + 1;
        }
    }
    proof {
        assert(all.take(done) =~= all);
        assert(seqs::views(r@) =~= keyed(seqs::views(sorted_keys@), seqs::views(r@)).map_values(
            without_key(),
        ));
    }
    r
}

/// The entry of folder `i`.
pub open spec fn folder_entry(
    worktrees: Seq<OpenWorktree>,
    active_repository: Option<ProjectPath>,
    repositories: Seq<RepositoryInfo>,
    connection_options: Option<RemoteConnection>,
    labels: Seq<String>,
    i: int,
) -> OpenFolderView {
    OpenFolderView {
        worktree_id: worktrees[i].id,
        name: if i < labels.len() {
            labels[i]@
        } else {
            Seq::empty()
        },
        path: worktrees[i].path@,
        branch: branch_of(repositories, worktrees[i].path@.components),
        is_active: active_id(worktrees, active_repository) == Some(worktrees[i].id),
        connection_options,
    }
}

/// The entries of the folders; none, where there is no more than one folder.
pub open spec fn folder_entries(
    worktrees: Seq<OpenWorktree>,
    active_repository: Option<ProjectPath>,
    repositories: Seq<RepositoryInfo>,
    connection_options: Option<RemoteConnection>,
    labels: Seq<String>,
) -> Seq<OpenFolderView> {
    if worktrees.len() <= 1 {
        Seq::empty()
    } else {
        Seq::new(
            worktrees.len(),
            |i: int|
                folder_entry(
                    worktrees,
                    active_repository,
                    repositories,
                    connection_options,
                    labels,
                    i,
                ),
        )
    }
}

/// The entries of the folders before they are sorted, with the labels that were made for them.
fn unsorted_folders(
    worktrees: &Vec<OpenWorktree>,
    active_repository: &Option<ProjectPath>,
    repositories: &Vec<RepositoryInfo>,
    connection_options: &Option<RemoteConnection>,
    labels: &Vec<String>,
) -> (r: Vec<OpenFolderEntry>)
    ensures
        seqs::views(r@) == folder_entries(
            worktrees@,
            *active_repository,
            repositories@,
            *connection_options,
            labels@,
        ),
{
    let mut r: Vec<OpenFolderEntry> = Vec::new();
    if worktrees.len() <= 1 {
        assert(seqs::views(r@) =~= Seq::empty());
        return r;
    }
    let active: Option<WorktreeId> = active_worktree_id(worktrees, active_repository);
    let mut i: usize = 0;
    while i < worktrees.len()
        invariant
            i <= worktrees@.len(),
            active == active_id(worktrees@, *active_repository),
            r@.len() == i,
            forall|j: int|
                0 <= j < i ==> (#[trigger] r@[j])@ == folder_entry(
                    worktrees@,
                    *active_repository,
                    repositories@,
                    *connection_options,
                    labels@,
                    j,
                ),
        decreases worktrees@.len() - i,
    {
        let name: String = if i < labels.len() {
            labels[i].clone()
        } else {
            String::new()
        };
        let is_active: bool = match active {
            Some(id) => id == worktrees[i].id,
            None => false,
        };
        let entry: OpenFolderEntry = OpenFolderEntry {
            worktree_id: worktrees[i].id,
            name,
            path: worktrees[i].path.clone(),
            branch: get_branch_for_worktree(&worktrees[i].path, repositories),
            is_active,
            connection_options: model::clone_host(connection_options),
        };
        assert(i >= labels@.len() ==> entry@.name =~= Seq::empty());
        r.push(entry);
        i = i + 1;
    }
    assert(seqs::views(r@) =~= folder_entries(
        worktrees@,
        *active_repository,
        repositories@,
        *connection_options,
        labels@,
    ));
    r
}

/// The entries of the folders by name, without regard to case.
pub open spec fn open_folder_list(
    worktrees: Seq<OpenWorktree>,
    active_repository: Option<ProjectPath>,
    repositories: Seq<RepositoryInfo>,
    connection_options: Option<RemoteConnection>,
    labels: Seq<String>,
) -> Seq<OpenFolderView> {
    seqs::stable_sort(
        folder_entries(worktrees, active_repository, repositories, connection_options, labels),
        by_name(),
    )
}

/// The folders of the active workspace by name, without regard to case. `labels` are the names
/// that were made for them.
pub fn get_open_folders(
    worktrees: &Vec<OpenWorktree>,
    active_repository: &Option<ProjectPath>,
    repositories: &Vec<RepositoryInfo>,
    connection_options: &Option<RemoteConnection>,
    labels: &Vec<String>,
) -> (r: Vec<OpenFolderEntry>)
    ensures
        seqs::views(r@) == open_folder_list(
            worktrees@,
            *active_repository,
            repositories@,
            *connection_options,
            labels@,
        ),
{
    let entries: Vec<OpenFolderEntry> = unsorted_folders(
        worktrees,
        active_repository,
        repositories,
        connection_options,
        labels,
    );
    let mut keys: Vec<String> = Vec::new();
    let mut i: usize = 0;
    while i < entries.len()
        invariant
            i <= entries@.len(),
            keys@.len() == i,
            forall|j: int|
                0 <= j < i ==> (#[trigger] keys@[j])@ == text::lowercase(entries@[j].name@),
        decreases entries@.len() - i,
    {
        keys.push(text::to_lowercase(entries[i].name.as_str()));
        i = i + 1;
    }
    proof {
        let views = seqs::views(entries@);
        assert(keyed(seqs::views(keys@), views) =~= views.map_values(with_key()));
        seqs::lemma_stable_sort_map(views, with_key(), by_name(), by_key());
        let sorted = seqs::stable_sort(views, by_name());
        assert(sorted.map_values(with_key()).map_values(without_key()) =~= sorted);
    }
    sort_by_keys(entries, keys)
}

/// The folders are in the order of their names, without regard to case; none is lost or added,
/// and folders whose names agree keep their order.
pub proof fn open_folders_are_in_order(entries: Seq<OpenFolderView>, e: OpenFolderView)
    ensures
        seqs::in_order(seqs::stable_sort(entries, by_name()), by_name()),
        seqs::stable_sort(entries, by_name()).to_multiset() == entries.to_multiset(),
        seqs::stable_sort(entries, by_name()).filter(seqs::ties(e, by_name())) == entries.filter(
            seqs::ties(e, by_name()),
        ),
{
    lemma_by_name();
    seqs::lemma_stable_sort(entries, by_name());
    seqs::lemma_stable_sort_keeps_ties(entries, by_name(), e);
}

/// Names compare any two entries.
pub(crate) proof fn lemma_by_name()
    ensures
        seqs::is_preorder(by_name()),
{
    text::lemma_text_order();
    let before = |a: Seq<char>, b: Seq<char>| text::text_before(a, b);
    let le = by_name();
    assert forall|a: OpenFolderView, b: OpenFolderView| #[trigger] le(a, b) || le(b, a) by {
        let x = text::lowercase(a.name);
        let y = text::lowercase(b.name);
        if before(y, x) && before(x, y) {
            assert(before(x, x));
        }
    }
    assert forall|a: OpenFolderView, b: OpenFolderView, c: OpenFolderView| #[trigger]
        le(a, b) && #[trigger] le(b, c) implies le(a, c) by {
        let x = text::lowercase(a.name);
        let y = text::lowercase(b.name);
        let z = text::lowercase(c.name);
        if before(z, x) {
            assert(x == y || before(x, y) || before(y, x));
            if before(x, y) {
                assert(before(z, y));
            }
        }
    }
}

} // verus!
