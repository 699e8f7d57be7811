//! What holds of the footer and its menus.
use crate::delegate::RecentProjectsDelegate;
use crate::delegate_laws;
use crate::footer;
use crate::footer::{
    ActionsMenuItem, FolderMenuItemView, FolderOpening, FooterAction,
};
use crate::model::{EntryView, ProjectFolder, ProjectFolderId, ProjectGroupKey};
use crate::rows::MoveToFolder;
use crate::terms;
use vstd::prelude::*;

verus! {

/// Folder `f` is not the one that holds the project.
pub open spec fn holds_not(
    folders: Seq<ProjectFolder>,
    current: Option<ProjectFolderId>,
    f: int,
) -> bool {
    &&& 0 <= f < folders.len()
    &&& current is Some ==> current->0 != folders[f].folder_id
}

proof fn lemma_items(folders: Seq<ProjectFolder>, current: Option<ProjectFolderId>) -> (at: Seq<
    int,
>)
    ensures
        at.len() == footer::folder_items(folders, current).len(),
        forall|k: int|
            0 <= k < at.len() ==> holds_not(folders, current, #[trigger] at[k])
                && footer::folder_items(folders, current)[k] == (FolderMenuItemView::Assign {
                folder_id: folders[at[k]].folder_id,
                name: folders[at[k]].name@,
            }),
        forall|k: int, l: int| 0 <= k < l < at.len() ==> #[trigger] at[k] < #[trigger] at[l],
        forall|f: int| #[trigger] holds_not(folders, current, f) ==> at.contains(f),
    decreases folders.len(),
{
    if folders.len() == 0 {
        Seq::empty()
    } else {
        let rest = folders.drop_last();
        let before = lemma_items(rest, current);
        let n: int = rest.len() as int;
        let all = footer::folder_items(folders, current);
        let few = footer::folder_items(rest, current);
        let at = if current == Some(folders.last().folder_id) {
            before
        } else {
            before.push(n)
        };
        assert forall|k: int| 0 <= k < at.len() implies holds_not(
            folders,
            current,
            #[trigger] at[k],
        ) && all[k] == (FolderMenuItemView::Assign {
            folder_id: folders[at[k]].folder_id,
            name: folders[at[k]].name@,
        }) by {
            if k < before.len() {
                assert(at[k] == before[k]);
                assert(holds_not(rest, current, before[k]));
                assert(all[k] == few[k]);
                assert(rest[at[k]] == folders[at[k]]);
            }
        }
        assert forall|k: int, l: int| 0 <= k < l < at.len() implies #[trigger] at[k]
            < #[trigger] at[l] by {
            assert(at[k] == before[k]);
            if l < before.len() {
                assert(at[l] == before[l]);
            }
        }
        assert forall|f: int| #[trigger] holds_not(folders, current, f) implies at.contains(f) by {
            if f < n {
                assert(rest[f] == folders[f]);
                assert(holds_not(rest, current, f));
                let k = choose|k: int| 0 <= k < before.len() && before[k] == f;
                assert(at[k] == f);
            } else {
                assert(at[at.len() - 1] == f);
            }
        }
        at
    }
}

/// The menu lists every folder but the one that holds the project, by its key and name and in
/// order; then, behind a separator, a new folder, and last, for a project that a folder holds, no
/// folder.
pub proof fn the_menu_lists_the_other_folders(
    folders: Seq<ProjectFolder>,
    current: Option<ProjectFolderId>,
) -> (at: Seq<int>)
    requires
        folders.len() > 0,
    ensures
        ({
            let menu = footer::folder_menu(folders, current);
            let n = at.len() as int;
            &&& menu.len() == n + 2 + (if current is Some {
                1int
            } else {
                0
            })
            &&& forall|k: int|
                0 <= k < n ==> holds_not(folders, current, #[trigger] at[k]) && menu[k] is Assign
                    && menu[k]->folder_id == folders[at[k]].folder_id && menu[k]->name
                    == folders[at[k]].name@
            &&& forall|k: int, l: int| 0 <= k < l < n ==> #[trigger] at[k] < #[trigger] at[l]
            &&& forall|f: int| #[trigger] holds_not(folders, current, f) ==> at.contains(f)
            &&& menu[n] is Separator
            &&& menu[n + 1] is NewFolder
            &&& current is Some ==> menu[n + 2] is RemoveFromFolder
        }),
{
    let at = lemma_items(folders, current);
    let items = footer::folder_items(folders, current);
    let menu = footer::folder_menu(folders, current);
    assert forall|k: int| 0 <= k < at.len() implies #[trigger] menu[k] == items[k] by {}
    assert forall|k: int| 0 <= k < at.len() implies holds_not(folders, current, #[trigger] at[k])
        && menu[k] is Assign && menu[k]->folder_id == folders[at[k]].folder_id && menu[k]->name
        == folders[at[k]].name@ by {
        assert(menu[k] == items[k]);
    }
    at
}

/// Without folders the menu offers a new one only.
pub proof fn without_folders_a_new_one_is_offered(current: Option<ProjectFolderId>)
    ensures
        footer::folder_menu(Seq::empty(), current).len() == 1,
        footer::folder_menu(Seq::empty(), current)[0] is NewFolder,
{
}

/// The items of the menu say what they do.
pub proof fn menu_items_say_what_they_do(opening: FolderOpening)
    ensures
        ActionsMenuItem::NewFolder.text() == "New Folder…"@,
        ActionsMenuItem::MoveToFolder.text() == "Move to Folder"@,
        ActionsMenuItem::RenameFolder.text() == "Rename Folder"@,
        ActionsMenuItem::Separator.text() == ""@,
        ActionsMenuItem::AddToProject.text() == "Add Folder to this Project"@,
        opening is Local ==> ActionsMenuItem::OpenFolders(opening).text()
            == "Open Local Folders"@,
        opening is Remote ==> ActionsMenuItem::OpenFolders(opening).text()
            == "Open Remote Folder"@,
{
}

impl RecentProjectsDelegate {
    /// The popover opens local folders and remote ones, in the window that the picker opens
    /// projects in, whatever is selected.
    pub proof fn the_popover_opens_folders(&self)
        ensures
            self.popover_buttons().len() == 2,
            self.popover_buttons()[0].1 == (FolderOpening::Local {
                in_new_window: self.create_new_window,
            }),
            self.popover_buttons()[1].1 == (FolderOpening::Remote {
                from_existing_connection: false,
                create_new_window: Some(self.create_new_window),
            }),
            forall|i: int|
                0 <= i < 2 ==> (#[trigger] self.popover_buttons()[i]).0
                    == self.popover_buttons()[i].1.text(),
    {
    }

    /// Some button of the buttons does this.
    pub open spec fn offers(buttons: Seq<(Seq<char>, FooterAction)>, action: FooterAction) -> bool {
        exists|i: int| 0 <= i < buttons.len() && (#[trigger] buttons[i]).1 == action
    }

    /// What can be removed has a button for it: an open folder, a group that does not have the
    /// options and the paths of the active one, a recent project and a stored folder. A stored
    /// folder alone has one that renames it.
    pub proof fn the_selected_row_can_be_removed(&self, active: Option<ProjectGroupKey>)
        ensures
            Self::offers(self.edit_buttons(active), FooterAction::RemoveSelected) <==> (
            self.selected() is Some && match self.selected()->0 {
                EntryView::OpenFolder { .. } => true,
                EntryView::ProjectGroup(m) => !(m.candidate_id < self.window_project_groups@.len()
                    && active is Some && terms::reached_alike(
                    self.window_project_groups@[m.candidate_id as int].host,
                    active->0.host,
                ) && terms::same_list(
                    self.window_project_groups@[m.candidate_id as int].paths,
                    active->0.paths,
                )),
                EntryView::RecentProject(_) => true,
                EntryView::Folder { folder_id, .. } => folder_id.0 >= 0,
                EntryView::Header(_) => false,
                EntryView::NewFolder => false,
            }),
            Self::offers(self.edit_buttons(active), FooterAction::RenameFolder) <==> (
            self.selected() is Some && self.selected()->0 is Folder
                && self.selected()->0->folder_id.0 >= 0),
    {
        let buttons = self.edit_buttons(active);
        if let Some(EntryView::ProjectGroup(m)) = self.selected() {
            if m.candidate_id < self.window_project_groups@.len() {
                Self::the_active_group_is_active(
                    &self.window_project_groups@[m.candidate_id as int],
                    active,
                );
            }
        }
        if buttons.len() > 0 {
            let last = buttons[buttons.len() - 1];
            let first = buttons[0];
            assert(last.1 == FooterAction::RemoveSelected);
        }
    }

    /// A project is opened by one of two buttons, of which the last one confirms, in the window
    /// that confirming opens it in; an open one is activated; a local group of several can be
    /// moved to a new window; folders are not opened.
    pub proof fn the_selected_row_can_be_opened(&self, g: usize)
        ensures
            Self::offers(self.open_buttons(), FooterAction::Confirm) <==> !(self.selected() is Some
                && (self.selected()->0 is Folder || self.selected()->0 is NewFolder)),
            Self::offers(self.open_buttons(), FooterAction::SecondaryConfirm) <==> (self.selected()
                is None || self.selected()->0 is RecentProject || self.selected()->0 is Header),
            Self::offers(self.open_buttons(), FooterAction::MoveToNewWindow(g)) <==> {
                &&& self.selected() is Some
                &&& self.selected()->0 is ProjectGroup
                &&& self.selected()->0->ProjectGroup_0.candidate_id == g
                &&& g < self.window_project_groups@.len()
                &&& self.window_project_groups@.len() > 1
                &&& self.window_project_groups@[g as int].host is None
            },
            self.open_buttons().len() > 0 ==> self.open_buttons().last().1
                == FooterAction::Confirm,
    {
        let buttons = self.open_buttons();
        if buttons.len() > 0 {
            assert(buttons[buttons.len() - 1].1 == FooterAction::Confirm);
            let first = buttons[0];
        }
    }

    /// The menu begins with a new folder and ends with the two ways to open folders, each in the
    /// window that the picker opens projects in. Between them it has what the selected row allows:
    /// to move a project that exists, to rename a stored folder, to add a local recent project.
    pub proof fn the_menu_has_what_the_row_allows(&self)
        ensures
            ({
                let menu = self.actions_menu();
                let n = menu.len() as int;
                &&& n >= 4
                &&& menu[0] == ActionsMenuItem::NewFolder
                &&& menu[n - 2] == ActionsMenuItem::OpenFolders(
                    FolderOpening::Local { in_new_window: self.create_new_window },
                )
                &&& menu[n - 1] == ActionsMenuItem::OpenFolders(
                    FolderOpening::Remote {
                        from_existing_connection: false,
                        create_new_window: Some(self.create_new_window),
                    },
                )
                &&& menu[n - 3] == ActionsMenuItem::Separator
                &&& menu.contains(ActionsMenuItem::MoveToFolder) <==> (self.selected() is Some && (
                (self.selected()->0 is RecentProject
                    && self.selected()->0->RecentProject_0.candidate_id < self.workspaces@.len())
                    || (self.selected()->0 is ProjectGroup
                    && self.selected()->0->ProjectGroup_0.candidate_id
                    < self.window_project_groups@.len())))
                &&& menu.contains(ActionsMenuItem::RenameFolder) <==> (self.selected() is Some
                    && self.selected()->0 is Folder && self.selected()->0->folder_id.0 >= 0)
                &&& menu.contains(ActionsMenuItem::AddToProject) <==> (self.selected() is Some
                    && self.selected()->0 is RecentProject
                    && self.selected()->0->RecentProject_0.candidate_id < self.workspaces@.len()
                    && self.workspaces@[self.selected()->0->RecentProject_0.candidate_id as int].location
                    is Local)
            }),
    {
        let menu = self.actions_menu();
        let project = self.selected_project() is Some;
        let folder = self.selected() matches Some(EntryView::Folder { folder_id, .. })
            && folder_id.0 >= 0;
        let local = self.local_recent_selected();
        assert(!(project && folder));
        if project {
            assert(menu[1] == ActionsMenuItem::MoveToFolder);
        }
        if folder {
            assert(menu[1] == ActionsMenuItem::RenameFolder);
        }
        if local {
            assert(project);
            assert(menu[3] == ActionsMenuItem::AddToProject);
        }
    }

    /// The footer's button moves the selected project: under its host and paths, out of the folder
    /// that the first assignment with them names.
    pub proof fn the_selected_project_can_be_moved(&self, r: Option<MoveToFolder>)
        requires
            self.footer_move(r),
        ensures
            r is Some <==> self.selected() is Some && ((self.selected()->0 is RecentProject
                && self.selected()->0->RecentProject_0.candidate_id < self.workspaces@.len()) || (
            self.selected()->0 is ProjectGroup && self.selected()->0->ProjectGroup_0.candidate_id
                < self.window_project_groups@.len())),
            r is Some && self.selected()->0 is RecentProject ==> {
                let w = self.workspaces@[self.selected()->0->RecentProject_0.candidate_id as int];
                &&& terms::files_under(r->0.pending.remote_identity@, terms::host_of(w.location))
                &&& r->0.pending.identity_paths@ == w.identity_paths@
                &&& r->0.current_folder == self.workspace_folder(&w)
            },
            r is Some && self.selected()->0 is ProjectGroup ==> {
                let key = self.window_project_groups@[self.selected(
                )->0->ProjectGroup_0.candidate_id as int];
                &&& terms::files_under(r->0.pending.remote_identity@, key.host)
                &&& r->0.pending.identity_paths@ == key.paths@
                &&& r->0.current_folder == self.group_folder(&key)
            },
    {
    }
}

} // verus!
