//! The picker's state, and what can be read of it.
use crate::model;
use crate::model::{
    EntryView, FolderEdit, OpenFolderEntry, PendingFolderAssign, PendingView, ProjectFolder,
    ProjectFolderAssignment, ProjectFolderId, ProjectGroupKey, ProjectPickerEntry,
    ProjectPickerStyle, RecentWorkspace, WorkspaceId,
};
use crate::path;
use crate::path::PathList;
use crate::seqs;
use vstd::prelude::*;

verus! {

/// The state of the recent-projects picker.
pub struct RecentProjectsDelegate {
    pub open_folders: Vec<OpenFolderEntry>,
    pub window_project_groups: Vec<ProjectGroupKey>,
    pub workspaces: Vec<RecentWorkspace>,
    pub folders: Vec<ProjectFolder>,
    pub assignments: Vec<ProjectFolderAssignment>,
    pub filtered_entries: Vec<ProjectPickerEntry>,
    /// Nothing was searched for when the rows were listed last.
    pub lists_everything: bool,
    pub selected_index: usize,
    pub render_paths: bool,
    pub create_new_window: bool,
    pub snap_selection_to_first_non_header_match: bool,
    pub style: ProjectPickerStyle,
    pub folder_edit: Option<FolderEdit>,
    pub folder_edit_error: Option<String>,
    pub pending_assign_after_create: Option<PendingFolderAssign>,
}

/// The assignment that files the project with this identity: the first that fits.
pub open spec fn filing(
    assignments: Seq<ProjectFolderAssignment>,
    identity: Seq<char>,
    paths: Seq<Seq<path::ComponentView>>,
) -> Option<usize> {
    seqs::first_index(assignments, |a: ProjectFolderAssignment| a.fits(identity, paths))
}

/// The folder that holds the project with this identity.
pub open spec fn folder_of(
    assignments: Seq<ProjectFolderAssignment>,
    identity: Seq<char>,
    paths: Seq<Seq<path::ComponentView>>,
) -> Option<ProjectFolderId> {
    match filing(assignments, identity, paths) {
        Some(i) => Some(assignments[i as int].folder_id),
        None => None,
    }
}

impl RecentProjectsDelegate {
    /// What holds of the picker between calls: paths are rendered in the modal only, only the
    /// modal edits folders, and a project waits for a folder only while that folder is created.
    pub open spec fn wf(&self) -> bool {
        &&& self.render_paths == (self.style == ProjectPickerStyle::Modal)
        &&& self.folder_edit is Some ==> self.style == ProjectPickerStyle::Modal
        &&& self.pending_assign_after_create is Some ==> self.folder_edit == Some(
            FolderEdit::Create,
        )
    }

    /// The rows of the picker.
    pub open spec fn rows(&self) -> Seq<EntryView> {
        seqs::views(self.filtered_entries@)
    }

    /// The selected row.
    pub open spec fn selected(&self) -> Option<EntryView> {
        if self.selected_index < self.rows().len() {
            Some(self.rows()[self.selected_index as int])
        } else {
            None
        }
    }

    /// Both hold the same projects, groups, folders and settings.
    pub open spec fn same_projects(&self, other: &RecentProjectsDelegate) -> bool {
        &&& self.open_folders == other.open_folders
        &&& self.window_project_groups == other.window_project_groups
        &&& self.workspaces == other.workspaces
        &&& self.folders == other.folders
        &&& self.assignments == other.assignments
        &&& self.render_paths == other.render_paths
        &&& self.create_new_window == other.create_new_window
        &&& self.style == other.style
    }

    /// Both are in the midst of the same folder edit.
    pub open spec fn same_edit(&self, other: &RecentProjectsDelegate) -> bool {
        &&& self.folder_edit == other.folder_edit
        &&& self.folder_edit_error == other.folder_edit_error
        &&& self.pending_assign_after_create == other.pending_assign_after_create
    }

    pub fn new(
        create_new_window: bool,
        open_folders: Vec<OpenFolderEntry>,
        window_project_groups: Vec<ProjectGroupKey>,
        style: ProjectPickerStyle,
    ) -> (r: Self)
        ensures
            r.wf(),
            r.open_folders == open_folders,
            r.window_project_groups == window_project_groups,
            r.workspaces@.len() == 0,
            r.folders@.len() == 0,
            r.assignments@.len() == 0,
            r.filtered_entries@.len() == 0,
            r.lists_everything,
            r.selected_index == 0,
            r.create_new_window == create_new_window,
            r.render_paths == (style == ProjectPickerStyle::Modal),
            r.snap_selection_to_first_non_header_match,
            r.style == style,
            r.folder_edit is None,
            r.folder_edit_error is None,
            r.pending_assign_after_create is None,
    {
        let render_paths: bool = style == ProjectPickerStyle::Modal;
        RecentProjectsDelegate {
            open_folders,
            window_project_groups,
            workspaces: Vec::new(),
            folders: Vec::new(),
            assignments: Vec::new(),
            filtered_entries: Vec::new(),
            lists_everything: true,
            selected_index: 0,
            render_paths,
            create_new_window,
            snap_selection_to_first_non_header_match: true,
            style,
            folder_edit: None,
            folder_edit_error: None,
            pending_assign_after_create: None,
        }
    }

    pub fn set_workspaces(&mut self, workspaces: Vec<RecentWorkspace>)
        ensures
            *final(self) == (RecentProjectsDelegate { workspaces, ..*old(self) }),
    {
        self.workspaces = workspaces;
    }

    pub fn set_folders(
        &mut self,
        folders: Vec<ProjectFolder>,
        assignments: Vec<ProjectFolderAssignment>,
    )
        ensures
            *final(self) == (RecentProjectsDelegate { folders, assignments, ..*old(self) }),
    {
        self.folders = folders;
        self.assignments = assignments;
    }

    pub fn set_open_folders(&mut self, open_folders: Vec<OpenFolderEntry>)
        ensures
            *final(self) == (RecentProjectsDelegate { open_folders, ..*old(self) }),
    {
        self.open_folders = open_folders;
    }

    pub open spec fn editing(&self, folder_id: ProjectFolderId) -> bool {
        self.folder_edit == Some(FolderEdit::Rename(folder_id))
    }

    pub open spec fn creating(&self) -> bool {
        self.folder_edit == Some(FolderEdit::Create)
    }

    pub fn is_editing_folder(&self, folder_id: ProjectFolderId) -> (r: bool)
        ensures
            r == self.editing(folder_id),
    {
        match self.folder_edit {
            Some(FolderEdit::Rename(id)) => id == folder_id,
            _ => false,
        }
    }

    pub fn is_creating_folder(&self) -> (r: bool)
        ensures
            r == self.creating(),
    {
        match self.folder_edit {
            Some(FolderEdit::Create) => true,
            _ => false,
        }
    }

    /// The row of the folder that is being created.
    pub fn is_draft_folder(&self, folder_id: ProjectFolderId) -> (r: bool)
        ensures
            r == (self.creating() && folder_id.0 < 0),
    {
        self.is_creating_folder() && folder_id.0 < 0
    }

    pub fn folder_id_for_identity(
        &self,
        remote_identity: &String,
        identity_paths: &PathList,
    ) -> (r: Option<ProjectFolderId>)
        ensures
            r == folder_of(self.assignments@, remote_identity@, identity_paths@.identity()),
    {
        let ghost identity = remote_identity@;
        let ghost paths = identity_paths@.identity();
        let ghost fits = |a: ProjectFolderAssignment| a.fits(identity, paths);
        let mut i: usize = 0;
        while i < self.assignments.len()
            invariant
                i <= self.assignments@.len(),
                identity == remote_identity@,
                paths == identity_paths@.identity(),
                fits == (|a: ProjectFolderAssignment| a.fits(identity, paths)),
                forall|j: int| 0 <= j < i ==> !fits(#[trigger] self.assignments@[j]),
            decreases self.assignments@.len() - i,
        {
            let a: &ProjectFolderAssignment = &self.assignments[i];
            if a.remote_identity == *remote_identity && a.identity_paths.same_paths(
                identity_paths,
            ) {
                proof {
                    assert(seqs::is_first(self.assignments@, fits, i as int));
                    seqs::lemma_first_index_is(self.assignments@, fits, i as int);
                }
                return Some(a.folder_id);
            }
            i = i + 1;
        }
        proof {
            seqs::lemma_first_index_none(self.assignments@, fits);
        }
        None
    }

    /// The folder that holds this workspace.
    pub open spec fn workspace_folder(&self, workspace: &RecentWorkspace) -> Option<
        ProjectFolderId,
    > {
        folder_of(
            self.assignments@,
            model::folder_identity(workspace.host()),
            workspace.identity_paths@.identity(),
        )
    }

    /// The folder that holds this project group.
    pub open spec fn group_folder(&self, key: &ProjectGroupKey) -> Option<ProjectFolderId> {
        folder_of(self.assignments@, model::folder_identity(key.host), key.paths@.identity())
    }

    pub fn folder_id_for_workspace(&self, workspace: &RecentWorkspace) -> (r: Option<
        ProjectFolderId,
    >)
        ensures
            r == self.workspace_folder(workspace),
    {
        self.folder_id_for_identity(
            &workspace.project_folder_identity(),
            &workspace.identity_paths,
        )
    }

    pub fn folder_id_for_project_group(&self, key: &ProjectGroupKey) -> (r: Option<
        ProjectFolderId,
    >)
        ensures
            r == self.group_folder(key),
    {
        self.folder_id_for_identity(&model::folder_identity_for_group(key), &key.paths)
    }

    /// The project that the selected row stands for, as it is filed in folders.
    pub open spec fn selected_project(&self) -> Option<PendingView> {
        match self.selected() {
            Some(EntryView::RecentProject(m)) => if m.candidate_id < self.workspaces@.len() {
                let w = self.workspaces@[m.candidate_id as int];
                Some(
                    PendingView {
                        remote_identity: model::folder_identity(w.host()),
                        identity_paths: w.identity_paths@,
                    },
                )
            } else {
                None
            },
            Some(EntryView::ProjectGroup(m)) => if m.candidate_id
                < self.window_project_groups@.len() {
                let key = self.window_project_groups@[m.candidate_id as int];
                Some(
                    PendingView {
                        remote_identity: model::folder_identity(key.host),
                        identity_paths: key.paths@,
                    },
                )
            } else {
                None
            },
            _ => None,
        }
    }

    pub fn selected_folder_assign(&self) -> (r: Option<PendingFolderAssign>)
        ensures
            r is Some == self.selected_project() is Some,
            r matches Some(p) ==> self.selected_project() == Some(p@),
    {
        match self.selected_entry() {
            Some(ProjectPickerEntry::RecentProject(hit)) => {
                if hit.candidate_id < self.workspaces.len() {
                    Some(PendingFolderAssign::from_workspace(&self.workspaces[hit.candidate_id]))
                } else {
                    None
                }
            },
            Some(ProjectPickerEntry::ProjectGroup(hit)) => {
                if hit.candidate_id < self.window_project_groups.len() {
                    Some(
                        PendingFolderAssign::from_project_group(
                            &self.window_project_groups[hit.candidate_id],
                        ),
                    )
                } else {
                    None
                }
            },
            _ => None,
        }
    }

    pub fn selected_entry(&self) -> (r: Option<&ProjectPickerEntry>)
        ensures
            r is Some == self.selected() is Some,
            r matches Some(e) ==> self.selected() == Some(e@) && e
                == self.filtered_entries@[self.selected_index as int],
    {
        if self.selected_index < self.filtered_entries.len() {
            Some(&self.filtered_entries[self.selected_index])
        } else {
            None
        }
    }

    pub fn match_count(&self) -> (r: usize)
        ensures
            r == self.rows().len(),
    {
        self.filtered_entries.len()
    }

    pub fn selected_index(&self) -> (r: usize)
        ensures
            r == self.selected_index,
    {
        self.selected_index
    }

    pub fn set_selected_index(&mut self, ix: usize)
        ensures
            *final(self) == (RecentProjectsDelegate { selected_index: ix, ..*old(self) }),
    {
        self.selected_index = ix;
    }

    pub fn can_select(&self, ix: usize) -> (r: bool)
        ensures
            r == (ix < self.rows().len() && self.rows()[ix as int].selectable()),
    {
        if ix < self.filtered_entries.len() {
            model::is_selectable_entry(&self.filtered_entries[ix])
        } else {
            false
        }
    }

    /// The text shown in place of an empty list.
    pub open spec fn empty_list_text(&self) -> Seq<char> {
        if self.workspaces@.len() == 0 && self.open_folders@.len() == 0 {
            "Recently opened projects will show up here"@
        } else {
            "No matches"@
        }
    }

    pub fn no_matches_text(&self) -> (r: &'static str)
        ensures
            r@ == self.empty_list_text(),
    {
        if self.workspaces.len() == 0 && self.open_folders.len() == 0 {
            "Recently opened projects will show up here"
        } else {
            "No matches"
        }
    }

    /// The row stands for a project on a remote host.
    pub open spec fn remote_row(&self, entry: EntryView) -> bool {
        match entry {
            EntryView::Header(_) => false,
            EntryView::Folder { .. } => false,
            EntryView::NewFolder => false,
            EntryView::OpenFolder { index, .. } => index < self.open_folders@.len()
                && self.open_folders@[index as int].connection_options is Some,
            EntryView::ProjectGroup(m) => m.candidate_id < self.window_project_groups@.len()
                && self.window_project_groups@[m.candidate_id as int].host is Some,
            EntryView::RecentProject(m) => m.candidate_id < self.workspaces@.len()
                && self.workspaces@[m.candidate_id as int].host() is Some,
        }
    }

    pub open spec fn has_remote_row(&self) -> bool {
        exists|i: int| 0 <= i < self.rows().len() && self.remote_row(#[trigger] self.rows()[i])
    }

    pub fn entry_is_remote_project(&self, entry: &ProjectPickerEntry) -> (r: bool)
        ensures
            r == self.remote_row(entry@),
    {
        match entry {
            ProjectPickerEntry::Header(_) => false,
            ProjectPickerEntry::Folder { .. } => false,
            ProjectPickerEntry::NewFolder => false,
            ProjectPickerEntry::OpenFolder { index, .. } => *index < self.open_folders.len()
                && self.open_folders[*index].connection_options.is_some(),
            ProjectPickerEntry::ProjectGroup(hit) => hit.candidate_id
                < self.window_project_groups.len()
                && self.window_project_groups[hit.candidate_id].host.is_some(),
            ProjectPickerEntry::RecentProject(hit) => hit.candidate_id < self.workspaces.len()
                && !self.workspaces[hit.candidate_id].location.is_local(),
        }
    }

    pub fn filtered_entries_include_remote_project(&self) -> (r: bool)
        ensures
            r == self.has_remote_row(),
    {
        let mut i: usize = 0;
        while i < self.filtered_entries.len()
            invariant
                i <= self.filtered_entries@.len(),
                forall|j: int| 0 <= j < i ==> !self.remote_row(#[trigger] self.rows()[j]),
            decreases self.filtered_entries@.len() - i,
        {
            if self.entry_is_remote_project(&self.filtered_entries[i]) {
                assert(self.remote_row(self.rows()[i as int]));
                return true;
            }
            i = i + 1;
        }
        false
    }

    /// The workspace is the one that the picker was opened in.
    pub fn is_current_workspace(
        &self,
        workspace_id: WorkspaceId,
        current: Option<WorkspaceId>,
    ) -> (r: bool)
        ensures
            r == (current == Some(workspace_id)),
    {
        match current {
            Some(id) => id == workspace_id,
            None => false,
        }
    }

    /// The group is the one of the workspace that the picker was opened in, where that
    /// workspace still exists.
    pub open spec fn active_group(key: &ProjectGroupKey, active: Option<ProjectGroupKey>) -> bool {
        active matches Some(a) && a.equal_to(key)
    }

    pub fn is_active_project_group(
        &self,
        key: &ProjectGroupKey,
        active: &Option<ProjectGroupKey>,
    ) -> (r: bool)
        ensures
            r == Self::active_group(key, *active),
    {
        match active {
            Some(a) => a.is_equal_to(key),
            None => false,
        }
    }

    /// A group of this window stands for the same project as the workspace.
    pub open spec fn in_window(&self, workspace: &RecentWorkspace) -> bool {
        exists|g: int|
            0 <= g < self.window_project_groups@.len() && model::same_host(
                (#[trigger] self.window_project_groups@[g]).host,
                workspace.host(),
            ) && self.window_project_groups@[g].paths@.identity()
                == workspace.identity_paths@.identity()
    }

    pub fn is_in_current_window_groups(&self, workspace: &RecentWorkspace) -> (r: bool)
        ensures
            r == self.in_window(workspace),
    {
        let key: ProjectGroupKey = workspace.project_group_key();
        let mut g: usize = 0;
        while g < self.window_project_groups.len()
            invariant
                g <= self.window_project_groups@.len(),
                key.host == workspace.host(),
                key.paths@ == workspace.identity_paths@,
                forall|j: int|
                    0 <= j < g ==> !(#[trigger] self.window_project_groups@[j]).matched_by(&key),
            decreases self.window_project_groups@.len() - g,
        {
            if self.window_project_groups[g].matches(&key) {
                assert(self.window_project_groups@[g as int].matched_by(&key));
                return true;
            }
            g = g + 1;
        }
        assert forall|j: int| 0 <= j < self.window_project_groups@.len() implies !(
        model::same_host((#[trigger] self.window_project_groups@[j]).host, workspace.host())
            && self.window_project_groups@[j].paths@.identity()
            == workspace.identity_paths@.identity()) by {
            assert(!self.window_project_groups@[j].matched_by(&key));
        }
        false
    }

    /// Path `p` of the workspace is the open folder `f`, on the same host.
    pub open spec fn open_at(&self, workspace: &RecentWorkspace, p: int, f: int) -> bool {
        &&& 0 <= p < workspace.paths.paths@.len()
        &&& 0 <= f < self.open_folders@.len()
        &&& workspace.paths.paths@[p]@.components == self.open_folders@[f].path@.components
        &&& model::same_host(workspace.host(), self.open_folders@[f].connection_options)
    }

    /// One of the workspace's paths is open as a folder of the active workspace.
    pub open spec fn open_as_folder(&self, workspace: &RecentWorkspace) -> bool {
        exists|p: int, f: int| self.open_at(workspace, p, f)
    }

    pub fn is_open_folder(&self, workspace: &RecentWorkspace) -> (r: bool)
        ensures
            r == self.open_as_folder(workspace),
    {
        let host = workspace.location.connection();
        let mut p: usize = 0;
        while p < workspace.paths.paths.len()
            invariant
                p <= workspace.paths.paths@.len(),
                host == workspace.host(),
                forall|i: int, f: int| 0 <= i < p ==> !#[trigger] self.open_at(workspace, i, f),
            decreases workspace.paths.paths@.len() - p,
        {
            let mut f: usize = 0;
            while f < self.open_folders.len()
                invariant
                    p < workspace.paths.paths@.len(),
                    f <= self.open_folders@.len(),
                    host == workspace.host(),
                    forall|k: int| 0 <= k < f ==> !#[trigger] self.open_at(workspace, p as int, k),
                decreases self.open_folders@.len() - f,
            {
                if workspace.paths.paths[p].same_path(&self.open_folders[f].path)
                    && model::same_remote_connection_identity(
                    &host,
                    &self.open_folders[f].connection_options,
                ) {
                    assert(self.open_at(workspace, p as int, f as int));
                    return true;
                }
                f = f + 1;
            }
            p = p + 1;
        }
        false
    }

    /// The workspace is offered among the ungrouped recent projects unless it is filed in a
    /// folder: it is neither open nor shown in another section.
    pub open spec fn candidate(
        &self,
        workspace: &RecentWorkspace,
        current: Option<WorkspaceId>,
    ) -> bool {
        &&& current != Some(workspace.workspace_id)
        &&& !self.in_window(workspace)
        &&& !self.open_as_folder(workspace)
    }

    pub fn is_valid_recent_candidate(
        &self,
        workspace: &RecentWorkspace,
        current: Option<WorkspaceId>,
    ) -> (r: bool)
        ensures
            r == self.candidate(workspace, current),
    {
        !self.is_current_workspace(workspace.workspace_id, current)
            && !self.is_in_current_window_groups(workspace) && !self.is_open_folder(workspace)
    }
}

} // verus!
