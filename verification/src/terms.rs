//! The terms that laws are stated in: nothing but the fields of the values.
use crate::model::{
    EntryView, MatchView, ProjectFolder, ProjectFolderAssignment, ProjectFolderId,
    ProjectGroupKey, RecentWorkspace, RemoteConnection, SerializedWorkspaceLocation, StringMatch,
};
use crate::path::PathList;
use vstd::prelude::*;

verus! {

/// The host of a stored workspace; a local one has none.
pub open spec fn host_of(location: SerializedWorkspaceLocation) -> Option<RemoteConnection> {
    match location {
        SerializedWorkspaceLocation::Local => None,
        SerializedWorkspaceLocation::Remote(h) => Some(h),
    }
}

/// Neither is remote, or both are and have the same identity.
pub open spec fn same_place(a: Option<RemoteConnection>, b: Option<RemoteConnection>) -> bool {
    &&& a is Some == b is Some
    &&& a is Some ==> a->0.identity == b->0.identity
}

/// Neither is remote, or both are and have the same options.
pub open spec fn reached_alike(a: Option<RemoteConnection>, b: Option<RemoteConnection>) -> bool {
    &&& a is Some == b is Some
    &&& a is Some ==> a->0.options == b->0.options
}

/// Both lists have as many paths, and each the components of its counterpart.
pub open spec fn same_list(a: PathList, b: PathList) -> bool {
    &&& a.paths@.len() == b.paths@.len()
    &&& forall|i: int|
        0 <= i < a.paths@.len() ==> (#[trigger] a.paths@[i])@.components
            == b.paths@[i]@.components
}

/// The text is the key of the remote host, or empty for a local project.
pub open spec fn files_under(text: Seq<char>, host: Option<RemoteConnection>) -> bool {
    match host {
        Some(h) => text == h.persistence_key@,
        None => text.len() == 0,
    }
}

/// The assignment has the host and the paths of the workspace.
pub open spec fn assigns(a: ProjectFolderAssignment, w: RecentWorkspace) -> bool {
    files_under(a.remote_identity@, host_of(w.location)) && same_list(
        a.identity_paths,
        w.identity_paths,
    )
}

/// The assignment has the host and the paths of the group.
pub open spec fn assigns_group(a: ProjectFolderAssignment, key: ProjectGroupKey) -> bool {
    files_under(a.remote_identity@, key.host) && same_list(a.identity_paths, key.paths)
}

/// The assignment speaks of workspace `id` and of none before it.
pub open spec fn assigns_first(
    a: ProjectFolderAssignment,
    workspaces: Seq<RecentWorkspace>,
    id: int,
) -> bool {
    &&& 0 <= id < workspaces.len()
    &&& assigns(a, workspaces[id])
    &&& forall|j: int| 0 <= j < id ==> !assigns(a, #[trigger] workspaces[j])
}

/// Assignment `k` speaks of the group, and none before it does.
pub open spec fn first_to_assign(
    assignments: Seq<ProjectFolderAssignment>,
    key: ProjectGroupKey,
    k: int,
) -> bool {
    &&& 0 <= k < assignments.len()
    &&& assigns_group(assignments[k], key)
    &&& forall|j: int| 0 <= j < k ==> !assigns_group(#[trigger] assignments[j], key)
}

/// The workspace and the group are filed under the same text and have the same paths.
pub open spec fn filed_alike(w: RecentWorkspace, key: ProjectGroupKey) -> bool {
    &&& forall|text: Seq<char>|
        files_under(text, host_of(w.location)) <==> #[trigger] files_under(text, key.host)
    &&& same_list(w.identity_paths, key.paths)
}

/// One of the folders has this key.
pub open spec fn folder_exists(folders: Seq<ProjectFolder>, id: ProjectFolderId) -> bool {
    exists|f: int| 0 <= f < folders.len() && (#[trigger] folders[f]).folder_id == id
}

/// Some match is of the name of a folder with this key.
pub open spec fn folder_found(
    folders: Seq<ProjectFolder>,
    hits: Seq<StringMatch>,
    id: ProjectFolderId,
) -> bool {
    exists|k: int|
        0 <= k < hits.len() && (#[trigger] hits[k]).candidate_id < folders.len()
            && folders[hits[k].candidate_id as int].folder_id == id
}

/// Some match is of candidate `id`.
pub open spec fn found(hits: Seq<StringMatch>, id: usize) -> bool {
    exists|i: int| 0 <= i < hits.len() && (#[trigger] hits[i]).candidate_id == id
}

/// The match is the last of its candidate; or there is none, and it highlights nothing.
pub open spec fn highlights_of(hits: Seq<StringMatch>, m: MatchView) -> bool {
    ||| exists|i: int|
        0 <= i < hits.len() && (#[trigger] hits[i])@ == m && forall|j: int|
            i < j < hits.len() ==> (#[trigger] hits[j]).candidate_id != m.candidate_id
    ||| !found(hits, m.candidate_id) && m.positions.len() == 0 && m.string.len() == 0
}

/// The row stands for a project.
pub open spec fn is_project(row: EntryView) -> bool {
    row is OpenFolder || row is ProjectGroup || row is RecentProject
}

/// Row `i` belongs to the title or the folder in row `h`: only projects stand between.
pub open spec fn under(rows: Seq<EntryView>, h: int, i: int) -> bool {
    &&& 0 <= h < i < rows.len()
    &&& rows[h] is Header || rows[h] is Folder
    &&& forall|j: int| h < j <= i ==> is_project(#[trigger] rows[j])
}

} // verus!
