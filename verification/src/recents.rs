//! The list of recent local projects, with names that tell them apart.
use crate::model::{RecentWorkspace, Timestamp, WorkspaceId};
use crate::path;
use crate::path::{ComponentView, PathView, ProjectPath};
use crate::seqs;
use crate::text;
use vstd::prelude::*;

verus! {

/// A recent local project.
pub struct RecentProjectEntry {
    pub name: String,
    pub full_path: String,
    pub paths: Vec<ProjectPath>,
    pub workspace_id: WorkspaceId,
    pub timestamp: Timestamp,
}

/// A path, and how many of its components its label needs so that it differs from the labels of
/// other paths.
pub struct LabelRequest {
    pub path: ProjectPath,
    pub detail: usize,
}

pub struct LabelRequestView {
    pub path: PathView,
    pub detail: usize,
}

impl View for LabelRequest {
    type V = LabelRequestView;

    open spec fn view(&self) -> LabelRequestView {
        LabelRequestView { path: self.path@, detail: self.detail }
    }
}

/// The workspace is listed: it is local, and not the current one.
pub open spec fn listed(workspace: &RecentWorkspace, current: Option<WorkspaceId>) -> bool {
    current != Some(workspace.workspace_id) && workspace.host() is None
}

pub open spec fn listed_at(
    workspaces: Seq<RecentWorkspace>,
    current: Option<WorkspaceId>,
) -> spec_fn(int) -> bool {
    |i: int| listed(&workspaces[i], current)
}

/// The workspaces that are listed, in the order in which they came.
pub open spec fn listed_ids(workspaces: Seq<RecentWorkspace>, current: Option<WorkspaceId>) -> Seq<
    usize,
> {
    seqs::index_filter(workspaces.len(), listed_at(workspaces, current))
}

fn is_listed(workspace: &RecentWorkspace, current: Option<WorkspaceId>) -> (r: bool)
    ensures
        r == listed(workspace, current),
{
    let is_current: bool = match current {
        Some(id) => id == workspace.workspace_id,
        None => false,
    };
    !is_current && workspace.location.is_local()
}

fn find_listed(workspaces: &Vec<RecentWorkspace>, current: Option<WorkspaceId>) -> (r: Vec<usize>)
    ensures
        r@ == listed_ids(workspaces@, current),
        forall|k: int| 0 <= k < r@.len() ==> (#[trigger] r@[k]) < workspaces@.len(),
{
    let ghost p = listed_at(workspaces@, current);
    let mut r: Vec<usize> = Vec::new();
    let mut i: usize = 0;
    while i < workspaces.len()
        invariant
            i <= workspaces@.len(),
            p == listed_at(workspaces@, current),
            r@ == seqs::index_filter(i as nat, p),
        decreases workspaces@.len() - i,
    {
        if is_listed(&workspaces[i], current) {
            r.push(i);
        }
        i = i + 1;
    }
    proof {
        seqs::lemma_index_filter(workspaces@.len(), p);
    }
    r
}

/// Path `p` of listed workspace `w` is the path `key`.
pub open spec fn names_path(
    workspaces: Seq<RecentWorkspace>,
    current: Option<WorkspaceId>,
    key: Seq<ComponentView>,
    w: int,
    p: int,
) -> bool {
    &&& 0 <= w < workspaces.len()
    &&& listed(&workspaces[w], current)
    &&& 0 <= p < workspaces[w].identity_paths.paths@.len()
    &&& workspaces[w].identity_paths.paths@[p]@.components == key
}

/// Some listed workspace has the path `key`.
pub open spec fn path_listed(
    workspaces: Seq<RecentWorkspace>,
    current: Option<WorkspaceId>,
    key: Seq<ComponentView>,
) -> bool {
    exists|w: int, p: int| names_path(workspaces, current, key, w, p)
}

/// `v` is a path of some listed workspace.
pub open spec fn from_listed(
    workspaces: Seq<RecentWorkspace>,
    current: Option<WorkspaceId>,
    v: PathView,
) -> bool {
    exists|w: int, p: int|
        #[trigger] names_path(workspaces, current, v.components, w, p)
            && workspaces[w].identity_paths.paths@[p]@ == v
}

/// These are the paths of all listed workspaces, in order, each once.
pub open spec fn listed_paths(
    workspaces: Seq<RecentWorkspace>,
    current: Option<WorkspaceId>,
    r: Seq<ProjectPath>,
) -> bool {
    &&& path::strictly_sorted(seqs::views(r))
    &&& forall|key: Seq<ComponentView>| #[trigger]
        path::holds_path(seqs::views(r), key) <==> path_listed(workspaces, current, key)
    &&& forall|i: int| 0 <= i < r.len() ==> from_listed(workspaces, current, (#[trigger] r[i])@)
}

/// The paths of all listed workspaces, in order, each once: what labels have to tell apart.
pub fn recent_project_paths(
    workspaces: &Vec<RecentWorkspace>,
    current_workspace_id: Option<WorkspaceId>,
) -> (r: Vec<ProjectPath>)
    ensures
        listed_paths(workspaces@, current_workspace_id, r@),
{
    let ghost current = current_workspace_id;
    let ghost all = workspaces@;
    let mut r: Vec<ProjectPath> = Vec::new();
    let mut w: usize = 0;
    while w < workspaces.len()
        invariant
            w <= workspaces@.len(),
            all == workspaces@,
            current == current_workspace_id,
            path::strictly_sorted(seqs::views(r@)),
            forall|i: int| 0 <= i < r@.len() ==> from_listed(all, current, (#[trigger] r@[i])@),
            forall|key: Seq<ComponentView>| #[trigger]
                path::holds_path(seqs::views(r@), key) <==> exists|v: int, p: int|
                    v < w && names_path(all, current, key, v, p),
        decreases workspaces@.len() - w,
    {
        let ghost before = seqs::views(r@);
        if is_listed(&workspaces[w], current_workspace_id) {
            let paths: &Vec<ProjectPath> = &workspaces[w].identity_paths.paths;
            let mut p: usize = 0;
            while p < paths.len()
                invariant
                    w < workspaces@.len(),
                    all == workspaces@,
                    paths == &all[w as int].identity_paths.paths,
                    listed(&all[w as int], current),
                    p <= paths@.len(),
                    path::strictly_sorted(seqs::views(r@)),
                    forall|i: int|
                        0 <= i < r@.len() ==> from_listed(all, current, (#[trigger] r@[i])@),
                    forall|key: Seq<ComponentView>| #[trigger]
                        path::holds_path(seqs::views(r@), key) <==> path::holds_path(before, key)
                            || exists|q: int| q < p && names_path(all, current, key, w as int, q),
                decreases paths@.len() - p,
            {
                let ghost so_far = r@;
                path::insert_distinct(&mut r, &paths[p]);
                proof {
                    assert(names_path(
                        all,
                        current,
                        paths@[p as int]@.components,
                        w as int,
                        p as int,
                    ));
                    assert forall|i: int| 0 <= i < r@.len() implies from_listed(
                        all,
                        current,
                        (#[trigger] r@[i])@,
                    ) by {
                        if r@[i]@ != paths@[p as int]@ {
                            let k = choose|k: int|
                                0 <= k < seqs::views(so_far).len() && seqs::views(so_far)[k]
                                    == r@[i]@;
                            assert(from_listed(all, current, so_far[k]@));
                        }
                    }
                    assert forall|key: Seq<ComponentView>| #[trigger]
                        path::holds_path(seqs::views(r@), key) <==> path::holds_path(before, key)
                        || exists|q: int| q < p + 1 && names_path(
                        all,
                        current,
                        key,
                        w as int,
                        q,
                    ) by {
                        if paths@[p as int]@.components == key {
                            assert(names_path(all, current, key, w as int, p as int));
                        }
                    }
                }
                p = p + 1;
            }
        }
        proof {
            assert forall|key: Seq<ComponentView>| #[trigger]
                path::holds_path(seqs::views(r@), key) <==> exists|v: int, p: int|
                v < w + 1 && names_path(all, current, key, v, p) by {
                if path::holds_path(seqs::views(r@), key) {
                    if path::holds_path(before, key) {
                        let (v, p) = choose|v: int, p: int|
                            v < w && names_path(all, current, key, v, p);
                        assert(names_path(all, current, key, v, p));
                    }
                }
            }
        }
        w = w + 1;
    }
    proof {
        assert forall|key: Seq<ComponentView>| #[trigger]
            path::holds_path(seqs::views(r@), key) <==> path_listed(all, current, key) by {
            if path_listed(all, current, key) {
                let (v, p) = choose|v: int, p: int| names_path(all, current, key, v, p);
                assert(v < w && names_path(all, current, key, v, p));
            }
        }
    }
    r
}

/// The detail for the path `key`: the one at the place of the path in the list, or 0.
pub open spec fn detail_of(
    all_paths: Seq<PathView>,
    details: Seq<usize>,
    key: Seq<ComponentView>,
) -> usize {
    match seqs::first_index(all_paths, |p: PathView| p.components == key) {
        Some(i) => if i < details.len() {
            details[i as int]
        } else {
            0
        },
        None => 0,
    }
}

/// The detail that was found for `path`, or 0.
pub fn detail_for(all_paths: &Vec<ProjectPath>, details: &Vec<usize>, path: &ProjectPath) -> (r:
    usize)
    ensures
        r == detail_of(seqs::views(all_paths@), details@, path@.components),
{
    match path::find_path(all_paths, path) {
        Some(i) => {
            if i < details.len() {
                details[i]
            } else {
                0
            }
        },
        None => 0,
    }
}

/// A path that is in the list gets the detail at its own place.
pub proof fn listed_paths_get_their_detail(
    all_paths: Seq<PathView>,
    details: Seq<usize>,
    i: int,
)
    requires
        path::strictly_sorted(all_paths),
        0 <= i < all_paths.len(),
        all_paths.len() <= usize::MAX,
        details.len() == all_paths.len(),
    ensures
        detail_of(all_paths, details, all_paths[i].components) == details[i],
{
    let key = all_paths[i].components;
    let p = |p: PathView| p.components == key;
    path::lemma_path_order();
    assert(seqs::is_first(all_paths, p, i)) by {
        assert forall|j: int| 0 <= j < i implies !p(#[trigger] all_paths[j]) by {
            assert(path::path_before(all_paths[j].components, key));
        }
    }
    seqs::lemma_first_index_is(all_paths, p, i);
}

/// What labels are wanted for the paths.
pub open spec fn label_requests(
    paths: Seq<PathView>,
    all_paths: Seq<PathView>,
    details: Seq<usize>,
) -> Seq<LabelRequestView> {
    Seq::new(
        paths.len(),
        |i: int|
            LabelRequestView {
                path: paths[i],
                detail: detail_of(all_paths, details, paths[i].components),
            },
    )
}

fn requests_for(
    paths: &Vec<ProjectPath>,
    all_paths: &Vec<ProjectPath>,
    details: &Vec<usize>,
) -> (r: Vec<LabelRequest>)
    ensures
        seqs::views(r@) == label_requests(seqs::views(paths@), seqs::views(all_paths@), details@),
{
    let mut r: Vec<LabelRequest> = Vec::new();
    let mut i: usize = 0;
    while i < paths.len()
        invariant
            i <= paths@.len(),
            r@.len() == i,
            forall|j: int|
                0 <= j < i ==> (#[trigger] r@[j])@ == (LabelRequestView {
                    path: paths@[j]@,
                    detail: detail_of(seqs::views(all_paths@), details@, paths@[j]@.components),
                }),
        decreases paths@.len() - i,
    {
        r.push(
            LabelRequest {
                path: paths[i].clone(),
                detail: detail_for(all_paths, details, &paths[i]),
            },
        );
        i = i + 1;
    }
    assert(seqs::views(r@) =~= label_requests(
        seqs::views(paths@),
        seqs::views(all_paths@),
        details@,
    ));
    r
}

/// These are the labels that are wanted of each listed workspace.
pub open spec fn wanted_labels(
    workspaces: Seq<RecentWorkspace>,
    current: Option<WorkspaceId>,
    all_paths: Seq<PathView>,
    details: Seq<usize>,
    r: Seq<Vec<LabelRequest>>,
) -> bool {
    &&& r.len() == listed_ids(workspaces, current).len()
    &&& forall|k: int|
        0 <= k < r.len() ==> seqs::views((#[trigger] r[k])@) == label_requests(
            workspaces[listed_ids(workspaces, current)[k] as int].identity_paths@.ordered_paths,
            all_paths,
            details,
        )
}

/// The labels that are wanted of each listed workspace, path by path in the order of display;
/// `details` are those found for `all_paths`.
pub fn recent_project_labels(
    workspaces: &Vec<RecentWorkspace>,
    current_workspace_id: Option<WorkspaceId>,
    all_paths: &Vec<ProjectPath>,
    details: &Vec<usize>,
) -> (r: Vec<Vec<LabelRequest>>)
    ensures
        wanted_labels(
            workspaces@,
            current_workspace_id,
            seqs::views(all_paths@),
            details@,
            r@,
        ),
{
    let ids: Vec<usize> = find_listed(workspaces, current_workspace_id);
    let mut r: Vec<Vec<LabelRequest>> = Vec::new();
    let mut k: usize = 0;
    while k < ids.len()
        invariant
            k <= ids@.len(),
            r@.len() == k,
            forall|j: int| 0 <= j < ids@.len() ==> (#[trigger] ids@[j]) < workspaces@.len(),
            forall|j: int|
                0 <= j < k ==> seqs::views((#[trigger] r@[j])@) == label_requests(
                    workspaces@[ids@[j] as int].identity_paths@.ordered_paths,
                    seqs::views(all_paths@),
                    details@,
                ),
        decreases ids@.len() - k,
    {
        let id: usize = ids[k];
        r.push(requests_for(&workspaces[id].identity_paths.ordered_paths, all_paths, details));
        k = k + 1;
    }
    r
}

/// The labels that say something, joined by commas.
pub open spec fn project_name(labels: Seq<Seq<char>>) -> Seq<char> {
    text::joined(labels.filter(says_something()), ", "@)
}

pub open spec fn says_something() -> spec_fn(Seq<char>) -> bool {
    |label: Seq<char>| label.len() > 0
}

fn name_of(labels: &Vec<String>) -> (r: String)
    ensures
        r@ == project_name(seqs::views(labels@)),
{
    let ghost all = seqs::views(labels@);
    let mut parts: Vec<String> = Vec::new();
    let mut i: usize = 0;
    proof {
        reveal(Seq::filter);
        assert(all.take(0).filter(says_something()) =~= Seq::empty());
        assert(seqs::views(parts@) =~= Seq::empty());
    }
    while i < labels.len()
        invariant
            i <= labels@.len(),
            all == seqs::views(labels@),
            seqs::views(parts@) == all.take(i as int).filter(says_something()),
        decreases labels@.len() - i,
    {
        proof {
            assert(all.take(i + 1) =~= all.take(i as int).push(all[i as int]));
            all.take(i as int).lemma_filter_push(all[i as int], says_something());
            assert(all[i as int] == labels@[i as int]@);
        }
        if !labels[i].as_str().is_empty() {
            proof {
                seqs::lemma_views_push(parts@, labels@[i as int]);
            }
            parts.push(labels[i].clone());
        }
        i = i + 1;
    }
    assert(all.take(i as int) =~= all);
    text::join(&parts, ", ")
}

/// The texts of the paths, one on a line.
pub open spec fn lines(paths: Seq<PathView>) -> Seq<char> {
    text::joined(Seq::new(paths.len(), |i: int| paths[i].text), "\n"@)
}

fn lines_of(paths: &Vec<ProjectPath>) -> (r: String)
    ensures
        r@ == lines(seqs::views(paths@)),
{
    let mut parts: Vec<String> = Vec::new();
    let mut i: usize = 0;
    while i < paths.len()
        invariant
            i <= paths@.len(),
            parts@.len() == i,
            forall|j: int| 0 <= j < i ==> (#[trigger] parts@[j])@ == paths@[j]@.text,
        decreases paths@.len() - i,
    {
        parts.push(paths[i].text.clone());
        i = i + 1;
    }
    let ghost all = seqs::views(paths@);
    assert(seqs::views(parts@) =~= Seq::new(all.len(), |i: int| all[i].text));
    text::join(&parts, "\n")
}

/// The labels of the `k`th listed workspace; none, where none were made.
pub open spec fn labels_at(labels: Seq<Vec<String>>, k: int) -> Seq<Seq<char>> {
    if k < labels.len() {
        seqs::views(labels[k]@)
    } else {
        Seq::empty()
    }
}

impl RecentProjectEntry {
    /// This is the entry of the workspace.
    pub open spec fn describes(&self, workspace: &RecentWorkspace, labels: Seq<Seq<char>>) -> bool {
        &&& self.name@ == project_name(labels)
        &&& self.full_path@ == lines(workspace.identity_paths@.ordered_paths)
        &&& seqs::views(self.paths@) == workspace.paths@.paths
        &&& self.workspace_id == workspace.workspace_id
        &&& self.timestamp == workspace.timestamp
    }
}

/// How many entries are given: no more than the limit allows.
pub open spec fn entry_count(listed: nat, limit: Option<usize>) -> nat {
    match limit {
        Some(n) => if n < listed {
            n as nat
        } else {
            listed
        },
        None => listed,
    }
}

/// These are the entries of the listed workspaces, as many as the limit allows.
pub open spec fn recent_entries(
    workspaces: Seq<RecentWorkspace>,
    current: Option<WorkspaceId>,
    limit: Option<usize>,
    labels: Seq<Vec<String>>,
    r: Seq<RecentProjectEntry>,
) -> bool {
    &&& r.len() == entry_count(listed_ids(workspaces, current).len(), limit)
    &&& forall|k: int|
        0 <= k < r.len() ==> (#[trigger] r[k]).describes(
            &workspaces[listed_ids(workspaces, current)[k] as int],
            labels_at(labels, k),
        )
}

/// The entries of the listed workspaces, as many as the limit allows, with the labels that were
/// made for them.
pub fn get_recent_projects(
    workspaces: &Vec<RecentWorkspace>,
    current_workspace_id: Option<WorkspaceId>,
    limit: Option<usize>,
    labels: &Vec<Vec<String>>,
) -> (r: Vec<RecentProjectEntry>)
    ensures
        recent_entries(workspaces@, current_workspace_id, limit, labels@, r@),
{
    let ids: Vec<usize> = find_listed(workspaces, current_workspace_id);
    let count: usize = match limit {
        Some(n) => {
            if n < ids.len() {
                n
            } else {
                ids.len()
            }
        },
        None => ids.len(),
    };
    let mut r: Vec<RecentProjectEntry> = Vec::new();
    let mut k: usize = 0;
    while k < count
        invariant
            k <= count <= ids@.len(),
            r@.len() == k,
            forall|j: int| 0 <= j < ids@.len() ==> (#[trigger] ids@[j]) < workspaces@.len(),
            forall|j: int|
                0 <= j < k ==> (#[trigger] r@[j]).describes(
                    &workspaces@[ids@[j] as int],
                    labels_at(labels@, j),
                ),
        decreases count - k,
    {
        let id: usize = ids[k];
        let workspace: &RecentWorkspace = &workspaces[id];
        let name: String = if k < labels.len() {
            name_of(&labels[k])
        } else {
            let none: Vec<String> = Vec::new();
            assert(seqs::views(none@) =~= labels_at(labels@, k as int));
            name_of(&none)
        };
        r.push(
            RecentProjectEntry {
                name,
                full_path: lines_of(&workspace.identity_paths.ordered_paths),
                paths: path::clone_paths(&workspace.paths.paths),
                workspace_id: workspace.workspace_id,
                timestamp: workspace.timestamp,
            },
        );
        k = k + 1;
    }
    r
}

/// Every entry is of a local workspace other than the current one, and the entries keep the
/// order of the workspaces.
pub proof fn entries_are_local_and_elsewhere(
    workspaces: Seq<RecentWorkspace>,
    current: Option<WorkspaceId>,
    k: int,
)
    requires
        workspaces.len() <= usize::MAX,
        0 <= k < listed_ids(workspaces, current).len(),
    ensures
        listed_ids(workspaces, current)[k] < workspaces.len(),
        listed(&workspaces[listed_ids(workspaces, current)[k] as int], current),
        forall|j: int|
            0 <= j < k ==> (#[trigger] listed_ids(workspaces, current)[j]) < listed_ids(
                workspaces,
                current,
            )[k],
{
    seqs::lemma_index_filter(workspaces.len(), listed_at(workspaces, current));
}

/// Every local workspace other than the current one has an entry.
pub proof fn local_workspaces_are_listed(
    workspaces: Seq<RecentWorkspace>,
    current: Option<WorkspaceId>,
    id: usize,
)
    requires
        workspaces.len() <= usize::MAX,
        id < workspaces.len(),
        listed(&workspaces[id as int], current),
    ensures
        listed_ids(workspaces, current).contains(id),
{
    seqs::lemma_index_filter(workspaces.len(), listed_at(workspaces, current));
    assert(listed_at(workspaces, current)(id as int));
}

} // verus!
