//! The picker as a modal or a popover: how it is opened, what its actions do, when it closes.
use crate::delegate::RecentProjectsDelegate;
use crate::deletion::RemoveAction;
use crate::model::{
    EntryView, OpenFolderEntry, ProjectFolder, ProjectFolderAssignment, ProjectFolderId,
    ProjectGroupKey, ProjectPickerEntry, ProjectPickerStyle, RecentWorkspace,
};
use crate::path;
use crate::path::ProjectPath;
use crate::seqs;
use vstd::prelude::*;

verus! {

/// Where projects are opened unless something else is asked for.
#[derive(Clone, Copy, Debug, PartialEq, Eq, Structural)]
pub enum DefaultOpenBehavior {
    ExistingWindow,
    NewWindow,
}

pub fn default_open_in_new_window(behavior: DefaultOpenBehavior) -> (r: bool)
    ensures
        r == (behavior == DefaultOpenBehavior::NewWindow),
{
    match behavior {
        DefaultOpenBehavior::ExistingWindow => false,
        DefaultOpenBehavior::NewWindow => true,
    }
}

/// Whether a new window is wanted: as asked for, or as the settings say.
pub open spec fn new_window(asked: Option<bool>, behavior: DefaultOpenBehavior) -> bool {
    match asked {
        Some(wanted) => wanted,
        None => behavior == DefaultOpenBehavior::NewWindow,
    }
}

pub fn wants_new_window(asked: Option<bool>, behavior: DefaultOpenBehavior) -> (r: bool)
    ensures
        r == new_window(asked, behavior),
{
    match asked {
        Some(wanted) => wanted,
        None => default_open_in_new_window(behavior),
    }
}

/// Whether a menu is to be closed or opened.
#[derive(Clone, Copy, Debug, PartialEq, Eq, Structural)]
pub enum MenuToggle {
    Hide,
    Show,
}

/// Which of the picker's menus have the focus or are open, and whether the editor for folder
/// names has the focus.
#[derive(Clone, Copy, Debug, PartialEq, Eq, Structural)]
pub struct MenuState {
    pub actions_focused: bool,
    pub actions_deployed: bool,
    pub move_to_folder_focused: bool,
    pub move_to_folder_deployed: bool,
    pub footer_move_to_folder_focused: bool,
    pub footer_move_to_folder_deployed: bool,
    pub name_editor_focused: bool,
}

impl MenuState {
    /// Some menu has the focus or is open, or the name editor has the focus.
    pub open spec fn busy(self) -> bool {
        ||| self.actions_focused
        ||| self.actions_deployed
        ||| self.move_to_folder_focused
        ||| self.move_to_folder_deployed
        ||| self.footer_move_to_folder_focused
        ||| self.footer_move_to_folder_deployed
        ||| self.name_editor_focused
    }
}

impl RecentProjectsDelegate {
    /// Something above the picker is in use: a menu, or the edit of a folder's name.
    pub fn has_another_open_menu(&self, menus: MenuState) -> (r: bool)
        ensures
            r == (menus.busy() || self.folder_edit is Some),
    {
        menus.actions_focused || menus.actions_deployed || menus.move_to_folder_focused
            || menus.move_to_folder_deployed || menus.footer_move_to_folder_focused
            || menus.footer_move_to_folder_deployed || self.folder_edit.is_some()
            || menus.name_editor_focused
    }
}

/// The picker of recent projects, in a modal or a popover.
pub struct RecentProjects {
    pub picker: RecentProjectsDelegate,
}

impl RecentProjects {
    /// The picker as a modal of a workspace.
    pub fn open(
        create_new_window: Option<bool>,
        behavior: DefaultOpenBehavior,
        open_folders: Vec<OpenFolderEntry>,
        window_project_groups: Vec<ProjectGroupKey>,
    ) -> (r: Self)
        ensures
            r.picker.wf(),
            r.picker.style == ProjectPickerStyle::Modal,
            r.picker.create_new_window == new_window(create_new_window, behavior),
            r.picker.open_folders == open_folders,
            r.picker.window_project_groups == window_project_groups,
            r.picker.workspaces@.len() == 0,
            r.picker.folders@.len() == 0,
            r.picker.assignments@.len() == 0,
            r.picker.filtered_entries@.len() == 0,
            r.picker.lists_everything,
            r.picker.selected_index == 0,
            r.picker.snap_selection_to_first_non_header_match,
            r.picker.folder_edit is None,
            r.picker.folder_edit_error is None,
            r.picker.pending_assign_after_create is None,
    {
        let create_new_window: bool = wants_new_window(create_new_window, behavior);
        RecentProjects {
            picker: RecentProjectsDelegate::new(
                create_new_window,
                open_folders,
                window_project_groups,
                ProjectPickerStyle::Modal,
            ),
        }
    }

    /// The picker as a popover. `open_folders` are those of its workspace, where that still
    /// exists.
    pub fn popover(
        open_folders: Option<Vec<OpenFolderEntry>>,
        window_project_groups: Vec<ProjectGroupKey>,
        create_new_window: Option<bool>,
        behavior: DefaultOpenBehavior,
    ) -> (r: Self)
        ensures
            r.picker.wf(),
            r.picker.style == ProjectPickerStyle::Popover,
            r.picker.create_new_window == new_window(create_new_window, behavior),
            open_folders matches Some(folders) ==> r.picker.open_folders == folders,
            open_folders is None ==> r.picker.open_folders@.len() == 0,
            r.picker.window_project_groups == window_project_groups,
            r.picker.workspaces@.len() == 0,
            r.picker.folders@.len() == 0,
            r.picker.assignments@.len() == 0,
            r.picker.filtered_entries@.len() == 0,
            r.picker.lists_everything,
            r.picker.selected_index == 0,
            r.picker.snap_selection_to_first_non_header_match,
            r.picker.folder_edit is None,
            r.picker.folder_edit_error is None,
            r.picker.pending_assign_after_create is None,
    {
        let open_folders: Vec<OpenFolderEntry> = match open_folders {
            Some(folders) => folders,
            None => Vec::new(),
        };
        let create_new_window: bool = wants_new_window(create_new_window, behavior);
        RecentProjects {
            picker: RecentProjectsDelegate::new(
                create_new_window,
                open_folders,
                window_project_groups,
                ProjectPickerStyle::Popover,
            ),
        }
    }

    /// The width that the picker begins with, in rems.
    pub fn initial_width(&self) -> (r: u32)
        ensures
            r == (match self.picker.style {
                ProjectPickerStyle::Modal => 42u32,
                ProjectPickerStyle::Popover => 20u32,
            }),
    {
        match self.picker.style {
            ProjectPickerStyle::Modal => 42,
            ProjectPickerStyle::Popover => 20,
        }
    }

    /// Takes in what the database holds; the rows are to be listed then.
    pub fn loaded(
        &mut self,
        workspaces: Vec<RecentWorkspace>,
        folders: Vec<ProjectFolder>,
        assignments: Vec<ProjectFolderAssignment>,
    )
        ensures
            final(self).picker == (RecentProjectsDelegate {
                workspaces,
                folders,
                assignments,
                ..old(self).picker
            }),
    {
        self.picker.set_workspaces(workspaces);
        self.picker.set_folders(folders, assignments);
    }

    /// Whether the modal may be dismissed: nothing above it is in use.
    pub fn on_before_dismiss(&self, menus: MenuState) -> (dismiss: bool)
        ensures
            dismiss == !(menus.busy() || self.picker.folder_edit is Some),
    {
        !self.picker.has_another_open_menu(menus)
    }

    /// Whether the picker closes when it loses the focus: the popover does, unless its actions
    /// menu took the focus.
    pub fn on_focus_out(&self, actions_menu_focused: bool) -> (dismiss: bool)
        ensures
            dismiss == (self.picker.style == ProjectPickerStyle::Popover && !actions_menu_focused),
    {
        match self.picker.style {
            ProjectPickerStyle::Popover => !actions_menu_focused,
            ProjectPickerStyle::Modal => false,
        }
    }

    /// The actions menu is closed where it is open, and opened where it is not.
    pub fn handle_toggle_open_menu(&self, is_deployed: bool) -> (r: MenuToggle)
        ensures
            r == (if is_deployed {
                MenuToggle::Hide
            } else {
                MenuToggle::Show
            }),
    {
        if is_deployed {
            MenuToggle::Hide
        } else {
            MenuToggle::Show
        }
    }

    /// What is to be done when the selected row is removed.
    pub fn handle_remove_selected(&self) -> (r: RemoveAction)
        ensures
            r == self.picker.removal(),
    {
        match self.picker.selected_entry() {
            Some(ProjectPickerEntry::OpenFolder { index, .. }) => {
                if *index < self.picker.open_folders.len() {
                    RemoveAction::OpenFolder(self.picker.open_folders[*index].worktree_id)
                } else {
                    RemoveAction::Nothing
                }
            },
            Some(ProjectPickerEntry::ProjectGroup(hit)) => {
                if hit.candidate_id < self.picker.window_project_groups.len() {
                    RemoveAction::ProjectGroup(hit.candidate_id)
                } else {
                    RemoveAction::Nothing
                }
            },
            Some(ProjectPickerEntry::RecentProject(_)) => {
                match self.picker.delete_recent_project(self.picker.selected_index) {
                    Some(id) => RemoveAction::RecentProject(id),
                    None => RemoveAction::Nothing,
                }
            },
            Some(ProjectPickerEntry::Folder { folder_id, .. }) => RemoveAction::Folder(*folder_id),
            _ => RemoveAction::Nothing,
        }
    }

    /// The folders of the selected recent project, which are to be added to the active project:
    /// those of a local project.
    pub fn handle_add_to_workspace(&self) -> (r: Option<Vec<ProjectPath>>)
        ensures
            r is Some == self.picker.local_recent_selected(),
            r matches Some(paths) ==> (self.picker.selected() matches Some(
                EntryView::RecentProject(m),
            ) && seqs::views(paths@)
                == self.picker.workspaces@[m.candidate_id as int].paths@.paths),
    {
        match self.picker.selected_entry() {
            Some(ProjectPickerEntry::RecentProject(hit)) => {
                if hit.candidate_id < self.picker.workspaces.len()
                    && self.picker.workspaces[hit.candidate_id].location.is_local() {
                    Some(path::clone_paths(&self.picker.workspaces[hit.candidate_id].paths.paths))
                } else {
                    None
                }
            },
            _ => None,
        }
    }

    /// Begins to create a folder for no project in particular. Says whether the name editor is
    /// to be emptied and focused; the rows are to be listed again, and the draft selected.
    pub fn handle_new_folder(&mut self) -> (opened: bool)
        ensures
            old(self).picker.wf() ==> final(self).picker.wf(),
            opened == (old(self).picker.style == ProjectPickerStyle::Modal),
            old(self).picker.creation_started(&final(self).picker, None),
    {
        self.picker.start_create_folder(None)
    }

    /// Begins to rename the selected folder. Gives its name, and whether the name editor is to
    /// be filled with it; the rows are to be listed again.
    pub fn handle_rename_folder(&mut self) -> (r: Option<(String, bool)>)
        ensures
            old(self).picker.wf() ==> final(self).picker.wf(),
            match old(self).picker.selected() {
                Some(EntryView::Folder { folder_id, name }) => {
                    &&& r matches Some((n, opened)) && n@ == name && opened
                        == old(self).picker.renameable(folder_id)
                    &&& old(self).picker.renaming_started(&final(self).picker, folder_id)
                },
                _ => r is None && *final(self) == *old(self),
            },
    {
        let ix: usize = self.picker.selected_index;
        if ix >= self.picker.filtered_entries.len() {
            return None;
        }
        assert(self.picker.rows()[ix as int] == self.picker.filtered_entries@[ix as int]@);
        match &self.picker.filtered_entries[ix] {
            ProjectPickerEntry::Folder { folder_id, name } => {
                let folder_id: ProjectFolderId = *folder_id;
                let name: String = name.clone();
                let opened: bool = self.picker.start_rename_folder(folder_id);
                Some((name, opened))
            },
            _ => None,
        }
    }
}

} // verus!
