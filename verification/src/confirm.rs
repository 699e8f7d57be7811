//! Confirming a row: which project is opened, activated or moved, and in which window.
use crate::delegate::RecentProjectsDelegate;
use crate::model;
use crate::model::{
    EntryView, ProjectFolderId, ProjectGroupKey, ProjectPickerEntry, ProjectPickerStyle,
    RecentWorkspace, RemoteConnection, RemoteKind, WorkspaceId, WorktreeId,
};
use crate::path::PathList;
use crate::rows::TargetWindow;
use vstd::prelude::*;

verus! {

/// What surrounds the picker when a row is confirmed.
///
/// - `workspace_alive`: the workspace that the picker was opened in still exists;
/// - `current`: that workspace's key in the database;
/// - `in_multi_workspace`: the window can hold several workspaces.
#[derive(Clone, Copy, Debug, PartialEq, Eq, Structural)]
pub struct Surroundings {
    pub workspace_alive: bool,
    pub current: Option<WorkspaceId>,
    pub in_multi_workspace: bool,
}

/// What is to be done for a confirmed row.
#[derive(Debug, PartialEq, Eq)]
pub enum ConfirmEffect {
    Nothing,
    /// Make the repository of this folder the active one.
    ActivateRepository(WorktreeId),
    /// Move this group to a window of its own.
    MoveGroupToNewWindow(usize),
    /// Activate this group in the window.
    ActivateGroup(usize),
    /// Open this workspace in the window.
    OpenHere(usize),
    /// Open this workspace in a new window.
    OpenInNewWindow(usize),
    /// Connect to the host of this workspace and open it: in the window, or in a new one; with
    /// what the settings say of the host, or without.
    OpenRemote { workspace: usize, reuse_window: bool, fill_from_settings: bool },
    /// Ask for the name of a new folder.
    AskForName,
    /// Ask for a new name of the folder that is called this.
    AskForNewName(String),
}

pub enum EffectView {
    Nothing,
    ActivateRepository(WorktreeId),
    MoveGroupToNewWindow(usize),
    ActivateGroup(usize),
    OpenHere(usize),
    OpenInNewWindow(usize),
    OpenRemote { workspace: usize, reuse_window: bool, fill_from_settings: bool },
    AskForName,
    AskForNewName(Seq<char>),
}

impl View for ConfirmEffect {
    type V = EffectView;

    open spec fn view(&self) -> EffectView {
        match self {
            ConfirmEffect::Nothing => EffectView::Nothing,
            ConfirmEffect::ActivateRepository(id) => EffectView::ActivateRepository(*id),
            ConfirmEffect::MoveGroupToNewWindow(g) => EffectView::MoveGroupToNewWindow(*g),
            ConfirmEffect::ActivateGroup(g) => EffectView::ActivateGroup(*g),
            ConfirmEffect::OpenHere(w) => EffectView::OpenHere(*w),
            ConfirmEffect::OpenInNewWindow(w) => EffectView::OpenInNewWindow(*w),
            ConfirmEffect::OpenRemote { workspace, reuse_window, fill_from_settings } =>
                EffectView::OpenRemote {
                workspace: *workspace,
                reuse_window: *reuse_window,
                fill_from_settings: *fill_from_settings,
            },
            ConfirmEffect::AskForName => EffectView::AskForName,
            ConfirmEffect::AskForNewName(name) => EffectView::AskForNewName(name@),
        }
    }
}

/// What is to be done for a confirmed row, and whether the picker closes.
#[derive(Debug, PartialEq, Eq)]
pub struct ConfirmOutcome {
    pub effect: ConfirmEffect,
    pub dismiss: bool,
}

pub struct OutcomeView {
    pub effect: EffectView,
    pub dismiss: bool,
}

impl View for ConfirmOutcome {
    type V = OutcomeView;

    open spec fn view(&self) -> OutcomeView {
        OutcomeView { effect: self.effect@, dismiss: self.dismiss }
    }
}

pub open spec fn outcome(effect: EffectView, dismiss: bool) -> OutcomeView {
    OutcomeView { effect, dismiss }
}

fn new_outcome(effect: ConfirmEffect, dismiss: bool) -> (r: ConfirmOutcome)
    ensures
        r@ == outcome(effect@, dismiss),
{
    ConfirmOutcome { effect, dismiss }
}

/// How a confirmed project group comes to the front.
pub enum GroupActivation {
    Nothing,
    /// Activate the workspace of the group that was active last.
    ActivateExisting,
    /// Find or create a workspace for these paths on this host.
    FindOrCreate { paths: PathList, host: Option<RemoteConnection> },
}

/// Where folders that the user picked are opened.
#[derive(Clone, Copy, Debug, PartialEq, Eq, Structural)]
pub enum LocalOpening {
    Nothing,
    /// In the window, which then shows them.
    Here,
    NewWindow,
}

/// Where the folders that the user picked are opened: a window that can hold several workspaces
/// is used again unless a new one is asked for.
pub fn open_local_project(
    workspace_alive: bool,
    picked: bool,
    create_new_window: bool,
    in_multi_workspace: bool,
) -> (r: LocalOpening)
    ensures
        r == (if !workspace_alive || !picked {
            LocalOpening::Nothing
        } else if !create_new_window && in_multi_workspace {
            LocalOpening::Here
        } else {
            LocalOpening::NewWindow
        }),
{
    if !workspace_alive || !picked {
        return LocalOpening::Nothing;
    }
    if !create_new_window {
        if in_multi_workspace {
            return LocalOpening::Here;
        }
    }
    LocalOpening::NewWindow
}

impl RecentProjectsDelegate {
    /// What confirming an open folder does.
    pub open spec fn folder_outcome(&self, index: usize, scene: Surroundings) -> OutcomeView {
        if index >= self.open_folders@.len() {
            outcome(EffectView::Nothing, false)
        } else if scene.workspace_alive {
            outcome(
                EffectView::ActivateRepository(self.open_folders@[index as int].worktree_id),
                true,
            )
        } else {
            outcome(EffectView::Nothing, true)
        }
    }

    /// What confirming a project group does: a secondary confirm moves a local group that is not
    /// the only one to a new window.
    pub open spec fn group_outcome(
        &self,
        group: usize,
        secondary: bool,
        scene: Surroundings,
    ) -> OutcomeView {
        if group >= self.window_project_groups@.len() {
            outcome(EffectView::Nothing, false)
        } else if !scene.in_multi_workspace {
            outcome(EffectView::Nothing, true)
        } else if secondary && self.window_project_groups@[group as int].host is None
            && self.window_project_groups@.len() >= 2 {
            outcome(EffectView::MoveGroupToNewWindow(group), true)
        } else {
            outcome(EffectView::ActivateGroup(group), true)
        }
    }

    /// What confirming a recent project does: one that is open already is not opened again.
    pub open spec fn recent_outcome(
        &self,
        id: usize,
        secondary: bool,
        scene: Surroundings,
    ) -> OutcomeView {
        if !scene.workspace_alive || id >= self.workspaces@.len() {
            outcome(EffectView::Nothing, false)
        } else {
            let workspace = self.workspaces@[id as int];
            let here = self.target_window(secondary) == TargetWindow::This;
            if scene.current == Some(workspace.workspace_id) {
                outcome(EffectView::Nothing, true)
            } else {
                match workspace.host() {
                    None => if !here {
                        outcome(EffectView::OpenInNewWindow(id), true)
                    } else if scene.in_multi_workspace {
                        outcome(EffectView::OpenHere(id), true)
                    } else {
                        outcome(EffectView::Nothing, true)
                    },
                    Some(connection) => outcome(
                        EffectView::OpenRemote {
                            workspace: id,
                            reuse_window: here && scene.in_multi_workspace,
                            fill_from_settings: connection.kind == RemoteKind::Ssh,
                        },
                        true,
                    ),
                }
            }
        }
    }

    /// What confirming a row that stands for a project does.
    pub open spec fn project_outcome(
        &self,
        row: EntryView,
        secondary: bool,
        scene: Surroundings,
    ) -> OutcomeView {
        match row {
            EntryView::OpenFolder { index, .. } => self.folder_outcome(index, scene),
            EntryView::ProjectGroup(m) => self.group_outcome(m.candidate_id, secondary, scene),
            EntryView::RecentProject(m) => self.recent_outcome(m.candidate_id, secondary, scene),
            _ => outcome(EffectView::Nothing, false),
        }
    }

    /// The first project of the selected folder: the row below it, where that is a project.
    pub open spec fn first_of_folder(&self) -> Option<EntryView> {
        let below = self.selected_index + 1;
        if below < self.rows().len() && (self.rows()[below] is RecentProject
            || self.rows()[below] is ProjectGroup) {
            Some(self.rows()[below])
        } else {
            None
        }
    }

    /// What confirming the selected row does.
    pub open spec fn confirm_outcome(&self, secondary: bool, scene: Surroundings) -> OutcomeView {
        match self.selected() {
            None => outcome(EffectView::Nothing, false),
            Some(EntryView::NewFolder) => outcome(
                if self.style == ProjectPickerStyle::Modal {
                    EffectView::AskForName
                } else {
                    EffectView::Nothing
                },
                false,
            ),
            Some(EntryView::Folder { folder_id, name }) => if self.creating() || self.editing(
                folder_id,
            ) {
                outcome(EffectView::Nothing, false)
            } else if secondary {
                outcome(
                    if self.renameable(folder_id) {
                        EffectView::AskForNewName(name)
                    } else {
                        EffectView::Nothing
                    },
                    false,
                )
            } else {
                match self.first_of_folder() {
                    Some(row) => self.project_outcome(row, false, scene),
                    None => outcome(EffectView::Nothing, false),
                }
            },
            Some(row) => self.project_outcome(row, secondary, scene),
        }
    }

    /// What confirming the selected row leaves.
    pub open spec fn confirmed(&self, secondary: bool, after: &RecentProjectsDelegate) -> bool {
        match self.selected() {
            Some(EntryView::NewFolder) => self.creation_started(after, None),
            Some(EntryView::Folder { folder_id, .. }) => if self.creating() || self.editing(
                folder_id,
            ) {
                *after == *self
            } else if secondary {
                self.renaming_started(after, folder_id)
            } else if self.first_of_folder() is Some {
                *after == (RecentProjectsDelegate {
                    selected_index: (self.selected_index + 1) as usize,
                    ..*self
                })
            } else {
                *after == *self
            },
            _ => *after == *self,
        }
    }

    /// Opens a recent workspace, unless it is the one that the picker was opened in.
    pub fn open_recent_projects(
        &self,
        candidate_id: usize,
        secondary: bool,
        scene: Surroundings,
    ) -> (r: ConfirmOutcome)
        ensures
            r@ == self.recent_outcome(candidate_id, secondary, scene),
    {
        if !scene.workspace_alive || candidate_id >= self.workspaces.len() {
            return new_outcome(ConfirmEffect::Nothing, false);
        }
        let workspace: &RecentWorkspace = &self.workspaces[candidate_id];
        let here: bool = match self.window_for(secondary) {
            TargetWindow::This => true,
            TargetWindow::New => false,
        };
        if self.is_current_workspace(workspace.workspace_id, scene.current) {
            return new_outcome(ConfirmEffect::Nothing, true);
        }
        match workspace.location.connection() {
            None => {
                if !here {
                    new_outcome(ConfirmEffect::OpenInNewWindow(candidate_id), true)
                } else if scene.in_multi_workspace {
                    new_outcome(ConfirmEffect::OpenHere(candidate_id), true)
                } else {
                    new_outcome(ConfirmEffect::Nothing, true)
                }
            },
            Some(connection) => {
                let fill_from_settings: bool = match connection.kind {
                    RemoteKind::Ssh => true,
                    _ => false,
                };
                new_outcome(
                    ConfirmEffect::OpenRemote {
                        workspace: candidate_id,
                        reuse_window: here && scene.in_multi_workspace,
                        fill_from_settings,
                    },
                    true,
                )
            },
        }
    }

    fn confirm_group(&self, group: usize, secondary: bool, scene: Surroundings) -> (r:
        ConfirmOutcome)
        ensures
            r@ == self.group_outcome(group, secondary, scene),
    {
        if group >= self.window_project_groups.len() {
            return new_outcome(ConfirmEffect::Nothing, false);
        }
        if !scene.in_multi_workspace {
            return new_outcome(ConfirmEffect::Nothing, true);
        }
        if secondary && self.window_project_groups[group].host.is_none()
            && self.window_project_groups.len() >= 2 {
            return new_outcome(ConfirmEffect::MoveGroupToNewWindow(group), true);
        }
        new_outcome(ConfirmEffect::ActivateGroup(group), true)
    }

    /// Confirms the selected row. Confirming a folder confirms the first project in it; a
    /// secondary confirm renames it.
    pub fn confirm(&mut self, secondary: bool, scene: Surroundings) -> (r: ConfirmOutcome)
        ensures
            old(self).wf() ==> final(self).wf(),
            r@ == old(self).confirm_outcome(secondary, scene),
            old(self).confirmed(secondary, final(self)),
    {
        let ix: usize = self.selected_index;
        if ix >= self.filtered_entries.len() {
            return new_outcome(ConfirmEffect::Nothing, false);
        }
        assert(self.rows()[ix as int] == self.filtered_entries@[ix as int]@);
        match &self.filtered_entries[ix] {
            ProjectPickerEntry::Header(_) => new_outcome(ConfirmEffect::Nothing, false),
            ProjectPickerEntry::OpenFolder { index, .. } => {
                if *index >= self.open_folders.len() {
                    new_outcome(ConfirmEffect::Nothing, false)
                } else if scene.workspace_alive {
                    new_outcome(
                        ConfirmEffect::ActivateRepository(self.open_folders[*index].worktree_id),
                        true,
                    )
                } else {
                    new_outcome(ConfirmEffect::Nothing, true)
                }
            },
            ProjectPickerEntry::ProjectGroup(hit) => self.confirm_group(
                hit.candidate_id,
                secondary,
                scene,
            ),
            ProjectPickerEntry::RecentProject(hit) => self.open_recent_projects(
                hit.candidate_id,
                secondary,
                scene,
            ),
            ProjectPickerEntry::Folder { folder_id, name } => {
                let folder_id: ProjectFolderId = *folder_id;
                if self.is_creating_folder() || self.is_editing_folder(folder_id) {
                    return new_outcome(ConfirmEffect::Nothing, false);
                }
                if secondary {
                    let name: String = name.clone();
                    if self.start_rename_folder(folder_id) {
                        return new_outcome(ConfirmEffect::AskForNewName(name), false);
                    }
                    return new_outcome(ConfirmEffect::Nothing, false);
                }
                let below: usize = ix + 1;
                if below >= self.filtered_entries.len() {
                    return new_outcome(ConfirmEffect::Nothing, false);
                }
                assert(self.rows()[below as int] == self.filtered_entries@[below as int]@);
                match &self.filtered_entries[below] {
                    ProjectPickerEntry::ProjectGroup(hit) => {
                        let r: ConfirmOutcome = self.confirm_group(hit.candidate_id, false, scene);
                        self.selected_index = below;
                        r
                    },
                    ProjectPickerEntry::RecentProject(hit) => {
                        let r: ConfirmOutcome = self.open_recent_projects(
                            hit.candidate_id,
                            false,
                            scene,
                        );
                        self.selected_index = below;
                        r
                    },
                    _ => new_outcome(ConfirmEffect::Nothing, false),
                }
            },
            ProjectPickerEntry::NewFolder => {
                if self.start_create_folder(None) {
                    new_outcome(ConfirmEffect::AskForName, false)
                } else {
                    new_outcome(ConfirmEffect::Nothing, false)
                }
            },
        }
    }

    /// How a confirmed group comes to the front: the workspace of it that was active last, where
    /// there is one, or one for its paths on its host.
    pub fn activate_group(&self, group: usize, in_multi_workspace: bool, has_existing: bool) -> (r:
        GroupActivation)
        ensures
            match r {
                GroupActivation::Nothing => group >= self.window_project_groups@.len()
                    || !in_multi_workspace,
                GroupActivation::ActivateExisting => group < self.window_project_groups@.len()
                    && in_multi_workspace && has_existing,
                GroupActivation::FindOrCreate { paths, host } => group
                    < self.window_project_groups@.len() && in_multi_workspace && !has_existing
                    && paths@ == self.window_project_groups@[group as int].paths@ && host
                    == self.window_project_groups@[group as int].host,
            },
    {
        if group >= self.window_project_groups.len() || !in_multi_workspace {
            GroupActivation::Nothing
        } else if has_existing {
            GroupActivation::ActivateExisting
        } else {
            let key: &ProjectGroupKey = &self.window_project_groups[group];
            GroupActivation::FindOrCreate {
                paths: key.paths.clone(),
                host: model::clone_host(&key.host),
            }
        }
    }

    /// Confirming a folder that is not being edited does what confirming the first project in it
    /// does.
    pub proof fn confirming_a_folder_confirms_its_first_project(&self, scene: Surroundings)
        requires
            self.selected() matches Some(EntryView::Folder { folder_id, .. }) && !self.editing(
                folder_id,
            ),
            !self.creating(),
            self.first_of_folder() is Some,
            self.rows().len() <= usize::MAX,
        ensures
            self.confirm_outcome(false, scene) == (RecentProjectsDelegate {
                selected_index: (self.selected_index + 1) as usize,
                ..*self
            }).confirm_outcome(false, scene),
    {
        let below = RecentProjectsDelegate {
            selected_index: (self.selected_index + 1) as usize,
            ..*self
        };
        assert(below.selected() == self.first_of_folder());
        let row = self.first_of_folder()->0;
        assert(below.project_outcome(row, false, scene) == self.project_outcome(row, false, scene));
    }

    /// The workspace that the picker was opened in is never opened a second time.
    pub proof fn current_workspace_is_not_reopened(
        &self,
        id: usize,
        secondary: bool,
        scene: Surroundings,
    )
        requires
            id < self.workspaces@.len(),
            scene.current == Some(self.workspaces@[id as int].workspace_id),
        ensures
            self.recent_outcome(id, secondary, scene).effect == EffectView::Nothing,
    {
    }

    /// A project on a remote host is never opened as a local one: confirming it connects to its
    /// host, and its group is activated as a group.
    pub proof fn remote_projects_stay_remote(&self, id: usize, secondary: bool, scene: Surroundings)
        ensures
            id < self.workspaces@.len() && self.workspaces@[id as int].host() is Some ==> {
                let effect = self.recent_outcome(id, secondary, scene).effect;
                effect is Nothing || (effect matches EffectView::OpenRemote { workspace, .. }
                    && workspace == id)
            },
            id < self.window_project_groups@.len() && self.window_project_groups@[id as int].host
                is Some ==> {
                let effect = self.group_outcome(id, secondary, scene).effect;
                effect is Nothing || effect == EffectView::ActivateGroup(id)
            },
    {
    }
}

} // verus!
