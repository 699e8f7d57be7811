//! What holds of confirming a row: which window a project opens in, and what each kind of row
//! does.
use crate::confirm::{EffectView, Surroundings};
use crate::delegate::RecentProjectsDelegate;
use crate::model::{
    EntryView, FolderEdit, MatchView, ProjectFolderId, ProjectPickerStyle, RemoteKind,
    SerializedWorkspaceLocation,
};
use crate::rows::{RecentProjectRow, TargetWindow};
use vstd::prelude::*;

verus! {

impl RecentProjectsDelegate {
    /// A local recent project opens in a new window exactly where one is asked for: by the picker
    /// with a primary confirm, or else with a secondary one. Otherwise it opens in the window,
    /// where that can hold it.
    pub proof fn local_projects_open_in_the_wanted_window(
        &self,
        id: usize,
        secondary: bool,
        scene: Surroundings,
    )
        requires
            id < self.workspaces@.len(),
            self.workspaces@[id as int].location is Local,
            scene.workspace_alive,
            scene.current != Some(self.workspaces@[id as int].workspace_id),
        ensures
            self.create_new_window != secondary ==> self.recent_outcome(id, secondary, scene).effect
                == EffectView::OpenInNewWindow(id),
            self.create_new_window == secondary && scene.in_multi_workspace ==> self.recent_outcome(
                id,
                secondary,
                scene,
            ).effect == EffectView::OpenHere(id),
            self.create_new_window == secondary && !scene.in_multi_workspace
                ==> self.recent_outcome(id, secondary, scene).effect == EffectView::Nothing,
            self.recent_outcome(id, secondary, scene).dismiss,
    {
    }

    /// A remote recent project is connected to, whatever its host; the window is used again
    /// exactly where a local project would open in it, and the settings are asked about SSH hosts
    /// only.
    pub proof fn remote_projects_connect_in_the_wanted_window(
        &self,
        id: usize,
        secondary: bool,
        scene: Surroundings,
    )
        requires
            id < self.workspaces@.len(),
            self.workspaces@[id as int].location is Remote,
            scene.workspace_alive,
            scene.current != Some(self.workspaces@[id as int].workspace_id),
        ensures
            self.recent_outcome(id, secondary, scene).dismiss,
            self.recent_outcome(id, secondary, scene).effect matches EffectView::OpenRemote {
                workspace,
                reuse_window,
                fill_from_settings,
            } && {
                &&& workspace == id
                &&& reuse_window <==> self.create_new_window == secondary
                    && scene.in_multi_workspace
                &&& fill_from_settings <==> (
                self.workspaces@[id as int].location->Remote_0).kind == RemoteKind::Ssh
            },
    {
    }

    /// Nothing opens without a workspace to open it from, for a row that stands for no workspace,
    /// or for the workspace that the picker was opened in; only the last closes the picker.
    pub proof fn nothing_opens_without_need(&self, id: usize, secondary: bool, scene: Surroundings)
        ensures
            (!scene.workspace_alive || id >= self.workspaces@.len()) ==> self.recent_outcome(
                id,
                secondary,
                scene,
            ).effect == EffectView::Nothing && !self.recent_outcome(id, secondary, scene).dismiss,
            scene.workspace_alive && id < self.workspaces@.len() && scene.current == Some(
                self.workspaces@[id as int].workspace_id,
            ) ==> self.recent_outcome(id, secondary, scene).effect == EffectView::Nothing
                && self.recent_outcome(id, secondary, scene).dismiss,
    {
    }

    /// The row of a local project announces the windows that it opens in: the one of its primary
    /// and the one of its secondary confirm.
    pub proof fn rows_announce_their_windows(
        &self,
        selected: bool,
        hit: MatchView,
        row: RecentProjectRow,
        scene: Surroundings,
    )
        requires
            hit.candidate_id < self.workspaces@.len(),
            self.workspaces@[hit.candidate_id as int].location is Local,
            scene.workspace_alive,
            scene.in_multi_workspace,
            scene.current != Some(self.workspaces@[hit.candidate_id as int].workspace_id),
            self.recent_project_row(selected, hit, row),
        ensures
            self.recent_outcome(hit.candidate_id, false, scene).effect == (match row.primary {
                TargetWindow::This => EffectView::OpenHere(hit.candidate_id),
                TargetWindow::New => EffectView::OpenInNewWindow(hit.candidate_id),
            }),
            self.recent_outcome(hit.candidate_id, true, scene).effect == (match row.secondary {
                TargetWindow::This => EffectView::OpenHere(hit.candidate_id),
                TargetWindow::New => EffectView::OpenInNewWindow(hit.candidate_id),
            }),
            row.primary != row.secondary,
            row.primary == TargetWindow::New <==> self.create_new_window,
    {
    }

    /// A confirmed row of a recent project opens the workspace that it stands for.
    pub proof fn recent_rows_open_their_workspace(&self, secondary: bool, scene: Surroundings)
        requires
            self.selected_index < self.filtered_entries@.len(),
            self.filtered_entries@[self.selected_index as int]@ is RecentProject,
        ensures
            self.confirm_outcome(secondary, scene) == self.recent_outcome(
                (self.filtered_entries@[self.selected_index as int]@->RecentProject_0).candidate_id,
                secondary,
                scene,
            ),
    {
        assert(self.rows()[self.selected_index as int]
            == self.filtered_entries@[self.selected_index as int]@);
    }

    /// A confirmed open folder becomes the active repository and closes the picker, where the
    /// workspace still exists.
    pub proof fn open_folder_rows_activate_their_repository(
        &self,
        secondary: bool,
        scene: Surroundings,
        index: usize,
        positions: Seq<usize>,
    )
        requires
            self.selected_index < self.filtered_entries@.len(),
            self.filtered_entries@[self.selected_index as int]@ == (EntryView::OpenFolder {
                index,
                positions,
            }),
        ensures
            index < self.open_folders@.len() ==> self.confirm_outcome(secondary, scene).dismiss,
            index < self.open_folders@.len() && scene.workspace_alive ==> self.confirm_outcome(
                secondary,
                scene,
            ).effect == EffectView::ActivateRepository(
                self.open_folders@[index as int].worktree_id,
            ),
            index >= self.open_folders@.len() ==> !self.confirm_outcome(secondary, scene).dismiss,
            index >= self.open_folders@.len() || !scene.workspace_alive ==> self.confirm_outcome(
                secondary,
                scene,
            ).effect == EffectView::Nothing,
    {
        assert(self.rows()[self.selected_index as int]
            == self.filtered_entries@[self.selected_index as int]@);
    }

    /// A confirmed group is activated in the window. A secondary confirm moves a local group to a
    /// new window while the window holds another one.
    pub proof fn group_rows_activate_or_move_their_group(
        &self,
        secondary: bool,
        scene: Surroundings,
        hit: MatchView,
    )
        requires
            self.selected_index < self.filtered_entries@.len(),
            self.filtered_entries@[self.selected_index as int]@ == EntryView::ProjectGroup(hit),
        ensures
            ({
                let g = hit.candidate_id;
                let groups = self.window_project_groups@;
                let r = self.confirm_outcome(secondary, scene);
                &&& r.dismiss <==> g < groups.len()
                &&& r.effect == EffectView::MoveGroupToNewWindow(g) <==> g < groups.len()
                    && scene.in_multi_workspace && secondary && groups.len() > 1
                    && groups[g as int].host is None
                &&& r.effect == EffectView::ActivateGroup(g) <==> g < groups.len()
                    && scene.in_multi_workspace && !(secondary && groups.len() > 1
                    && groups[g as int].host is None)
                &&& r.effect == EffectView::Nothing <==> g >= groups.len()
                    || !scene.in_multi_workspace
            }),
    {
        assert(self.rows()[self.selected_index as int]
            == self.filtered_entries@[self.selected_index as int]@);
    }

    /// While its name is being edited, or a folder is being created, confirming a folder does
    /// nothing. A secondary confirm asks for a new name, for a stored folder of the modal.
    pub proof fn folder_rows_rename_their_folder(
        &self,
        scene: Surroundings,
        secondary: bool,
        folder_id: ProjectFolderId,
        name: Seq<char>,
    )
        requires
            self.selected_index < self.filtered_entries@.len(),
            self.filtered_entries@[self.selected_index as int]@ == (EntryView::Folder {
                folder_id,
                name,
            }),
        ensures
            ({
                let r = self.confirm_outcome(secondary, scene);
                let edited = self.folder_edit == Some(FolderEdit::Create) || self.folder_edit
                    == Some(FolderEdit::Rename(folder_id));
                &&& edited ==> r.effect == EffectView::Nothing && !r.dismiss
                &&& secondary ==> !r.dismiss
                &&& secondary && !edited && self.style == ProjectPickerStyle::Modal && folder_id.0
                    >= 0 ==> r.effect == EffectView::AskForNewName(name)
                &&& secondary && (self.style == ProjectPickerStyle::Popover || folder_id.0 < 0)
                    ==> r.effect == EffectView::Nothing
            }),
    {
        assert(self.rows()[self.selected_index as int]
            == self.filtered_entries@[self.selected_index as int]@);
    }

    /// A primary confirm of a folder that is not edited selects the project in the row below and
    /// does what confirming that one does; without such a row it does nothing.
    pub proof fn folder_rows_open_their_first_project(
        &self,
        scene: Surroundings,
        after: &RecentProjectsDelegate,
    )
        requires
            self.selected_index < self.filtered_entries@.len(),
            self.filtered_entries@[self.selected_index as int]@ is Folder,
            self.folder_edit is None,
            self.confirmed(false, after),
        ensures
            ({
                let below = self.selected_index + 1;
                let first = below < self.filtered_entries@.len() && (
                self.filtered_entries@[below]@ is RecentProject
                    || self.filtered_entries@[below]@ is ProjectGroup);
                let r = self.confirm_outcome(false, scene);
                &&& !first ==> r.effect == EffectView::Nothing && !r.dismiss && *after == *self
                &&& first ==> r == after.confirm_outcome(false, scene) && after.selected_index
                    == below && after.filtered_entries == self.filtered_entries
            }),
    {
        let below = self.selected_index + 1;
        assert(self.rows()[self.selected_index as int]
            == self.filtered_entries@[self.selected_index as int]@);
        assert(self.filtered_entries@.len() == self.filtered_entries.len());
        if below < self.filtered_entries@.len() {
            assert(self.rows()[below] == self.filtered_entries@[below]@);
            if self.first_of_folder() is Some {
                assert(after.rows()[below] == self.rows()[below]);
                assert(after.selected() == self.first_of_folder());
                let row = self.first_of_folder()->0;
                assert(after.project_outcome(row, false, scene) == self.project_outcome(
                    row,
                    false,
                    scene,
                ));
            }
        }
    }

    /// Titles do nothing, nor does a selection behind the rows; the last row of the modal asks
    /// for the name of a new folder. None of them closes the picker.
    pub proof fn other_rows_open_nothing(&self, secondary: bool, scene: Surroundings)
        ensures
            self.selected_index >= self.filtered_entries@.len() || self.filtered_entries@[
                self.selected_index as int]@ is Header ==> self.confirm_outcome(
                secondary,
                scene,
            ).effect == EffectView::Nothing && !self.confirm_outcome(secondary, scene).dismiss,
            self.selected_index < self.filtered_entries@.len() && self.filtered_entries@[
                self.selected_index as int]@ is NewFolder ==> {
                &&& !self.confirm_outcome(secondary, scene).dismiss
                &&& self.style == ProjectPickerStyle::Modal ==> self.confirm_outcome(
                    secondary,
                    scene,
                ).effect == EffectView::AskForName
                &&& self.style == ProjectPickerStyle::Popover ==> self.confirm_outcome(
                    secondary,
                    scene,
                ).effect == EffectView::Nothing
            },
    {
        if self.selected_index < self.filtered_entries@.len() {
            assert(self.rows()[self.selected_index as int]
                == self.filtered_entries@[self.selected_index as int]@);
        }
    }

    /// Confirming a project, a title or nothing leaves the picker as it is.
    pub proof fn confirming_projects_changes_no_state(
        &self,
        secondary: bool,
        after: &RecentProjectsDelegate,
    )
        requires
            self.confirmed(secondary, after),
            self.selected_index < self.filtered_entries@.len() ==> !(self.filtered_entries@[
                self.selected_index as int]@ is Folder) && !(self.filtered_entries@[
                self.selected_index as int]@ is NewFolder),
        ensures
            *after == *self,
    {
        if self.selected_index < self.filtered_entries@.len() {
            assert(self.rows()[self.selected_index as int]
                == self.filtered_entries@[self.selected_index as int]@);
        }
    }
}

} // verus!
