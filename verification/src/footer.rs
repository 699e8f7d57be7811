//! The footer of the picker, its menus and the menu that puts a project in a folder.
use crate::delegate;
use crate::delegate::RecentProjectsDelegate;
use crate::model::{
    EntryView, ProjectFolder, ProjectFolderId, ProjectGroupKey, ProjectPickerEntry,
    ProjectPickerStyle,
};
use crate::rows::MoveToFolder;
use crate::seqs;
use vstd::prelude::*;

verus! {

/// An item of the menu that puts a project in a folder.
#[derive(Debug, PartialEq, Eq)]
pub enum FolderMenuItem {
    /// Puts the project in this folder.
    Assign { folder_id: ProjectFolderId, name: String },
    Separator,
    /// Creates a folder and puts the project in it.
    NewFolder,
    /// Takes the project out of its folder.
    RemoveFromFolder,
}

pub enum FolderMenuItemView {
    Assign { folder_id: ProjectFolderId, name: Seq<char> },
    Separator,
    NewFolder,
    RemoveFromFolder,
}

impl View for FolderMenuItem {
    type V = FolderMenuItemView;

    open spec fn view(&self) -> FolderMenuItemView {
        match self {
            FolderMenuItem::Assign { folder_id, name } => FolderMenuItemView::Assign {
                folder_id: *folder_id,
                name: name@,
            },
            FolderMenuItem::Separator => FolderMenuItemView::Separator,
            FolderMenuItem::NewFolder => FolderMenuItemView::NewFolder,
            FolderMenuItem::RemoveFromFolder => FolderMenuItemView::RemoveFromFolder,
        }
    }
}

/// An item for each folder but the one that holds the project.
pub open spec fn folder_items(
    folders: Seq<ProjectFolder>,
    current: Option<ProjectFolderId>,
) -> Seq<FolderMenuItemView>
    decreases folders.len(),
{
    if folders.len() == 0 {
        Seq::empty()
    } else {
        let rest = folder_items(folders.drop_last(), current);
        if current == Some(folders.last().folder_id) {
            rest
        } else {
            rest.push(
                FolderMenuItemView::Assign {
                    folder_id: folders.last().folder_id,
                    name: folders.last().name@,
                },
            )
        }
    }
}

/// The menu that puts a project in a folder: the other folders, a new one, and none.
pub open spec fn folder_menu(
    folders: Seq<ProjectFolder>,
    current: Option<ProjectFolderId>,
) -> Seq<FolderMenuItemView> {
    if folders.len() == 0 {
        seq![FolderMenuItemView::NewFolder]
    } else {
        let items = folder_items(folders, current).push(FolderMenuItemView::Separator).push(
            FolderMenuItemView::NewFolder,
        );
        if current is Some {
            items.push(FolderMenuItemView::RemoveFromFolder)
        } else {
            items
        }
    }
}

pub fn populate_move_to_folder_menu(
    user_folders: &Vec<ProjectFolder>,
    current_folder_id: Option<ProjectFolderId>,
) -> (r: Vec<FolderMenuItem>)
    ensures
        seqs::views(r@) == folder_menu(user_folders@, current_folder_id),
{
    let mut r: Vec<FolderMenuItem> = Vec::new();
    if user_folders.len() == 0 {
        r.push(FolderMenuItem::NewFolder);
        assert(seqs::views(r@) =~= seq![FolderMenuItemView::NewFolder]);
        return r;
    }
    let mut i: usize = 0;
    assert(user_folders@.take(0) =~= Seq::empty());
    assert(seqs::views(r@) =~= folder_items(user_folders@.take(0), current_folder_id));
    while i < user_folders.len()
        invariant
            i <= user_folders@.len(),
            seqs::views(r@) == folder_items(user_folders@.take(i as int), current_folder_id),
        decreases user_folders@.len() - i,
    {
        let ghost next = user_folders@.take(i + 1);
        assert(next.drop_last() =~= user_folders@.take(i as int));
        assert(next.last() == user_folders@[i as int]);
        let held: bool = match current_folder_id {
            Some(id) => id == user_folders[i].folder_id,
            None => false,
        };
        if !held {
            let item: FolderMenuItem = FolderMenuItem::Assign {
                folder_id: user_folders[i].folder_id,
                name: user_folders[i].name.clone(),
            };
            proof {
                seqs::lemma_views_push(r@, item);
            }
            r.push(item);
        }
        i = i + 1;
    }
    assert(user_folders@.take(i as int) =~= user_folders@);
    proof {
        seqs::lemma_views_push(r@, FolderMenuItem::Separator);
        seqs::lemma_views_push(r@.push(FolderMenuItem::Separator), FolderMenuItem::NewFolder);
        seqs::lemma_views_push(
            r@.push(FolderMenuItem::Separator).push(FolderMenuItem::NewFolder),
            FolderMenuItem::RemoveFromFolder,
        );
    }
    r.push(FolderMenuItem::Separator);
    r.push(FolderMenuItem::NewFolder);
    if current_folder_id.is_some() {
        r.push(FolderMenuItem::RemoveFromFolder);
    }
    r
}

proof fn lemma_folder_items(
    folders: Seq<ProjectFolder>,
    current: Option<ProjectFolderId>,
    id: ProjectFolderId,
)
    ensures
        (exists|i: int|
            0 <= i < folder_items(folders, current).len() && (#[trigger] folder_items(
                folders,
                current,
            )[i] matches FolderMenuItemView::Assign { folder_id, .. } && folder_id == id)) <==> (
        current != Some(id) && exists|f: int|
            0 <= f < folders.len() && (#[trigger] folders[f]).folder_id == id),
    decreases folders.len(),
{
    let items = folder_items(folders, current);
    if folders.len() > 0 {
        let front = folders.drop_last();
        let rest = folder_items(front, current);
        lemma_folder_items(front, current, id);
        if exists|i: int|
            0 <= i < items.len() && (#[trigger] items[i] matches FolderMenuItemView::Assign {
                folder_id,
                ..
            } && folder_id == id) {
            let i = choose|i: int|
                0 <= i < items.len() && (#[trigger] items[i] matches FolderMenuItemView::Assign {
                    folder_id,
                    ..
                } && folder_id == id);
            if i < rest.len() {
                assert(rest[i] == items[i]);
                let f = choose|f: int| 0 <= f < front.len() && (#[trigger] front[f]).folder_id == id;
                assert(folders[f].folder_id == id);
            } else {
                assert(folders[folders.len() - 1].folder_id == id);
            }
        }
        if current != Some(id) && exists|f: int|
            0 <= f < folders.len() && (#[trigger] folders[f]).folder_id == id {
            let f = choose|f: int| 0 <= f < folders.len() && (#[trigger] folders[f]).folder_id
                == id;
            if f < front.len() {
                assert(front[f].folder_id == id);
                let i = choose|i: int|
                    0 <= i < rest.len() && (#[trigger] rest[i] matches FolderMenuItemView::Assign {
                        folder_id,
                        ..
                    } && folder_id == id);
                assert(items[i] == rest[i]);
            } else {
                assert(items[items.len() - 1] matches FolderMenuItemView::Assign {
                    folder_id,
                    ..
                } && folder_id == id);
            }
        }
    }
}

/// The menu offers exactly the folders that do not hold the project already, and takes the
/// project out of a folder only where it is in one.
pub proof fn menu_offers_the_other_folders(
    folders: Seq<ProjectFolder>,
    current: Option<ProjectFolderId>,
    id: ProjectFolderId,
)
    requires
        folders.len() > 0,
    ensures
        (exists|i: int|
            0 <= i < folder_menu(folders, current).len() && (#[trigger] folder_menu(
                folders,
                current,
            )[i] matches FolderMenuItemView::Assign { folder_id, .. } && folder_id == id)) <==> (
        current != Some(id) && exists|f: int|
            0 <= f < folders.len() && (#[trigger] folders[f]).folder_id == id),
        folder_menu(folders, current).contains(FolderMenuItemView::RemoveFromFolder) <==> current
            is Some,
        folder_menu(folders, current).contains(FolderMenuItemView::NewFolder),
{
    lemma_folder_items(folders, current, id);
    lemma_folder_items_assign(folders, current);
    let items = folder_items(folders, current);
    let menu = folder_menu(folders, current);
    let n: int = items.len() as int;
    assert(menu[n] == FolderMenuItemView::Separator);
    assert(menu[n + 1] == FolderMenuItemView::NewFolder);
    assert forall|i: int| 0 <= i < n implies #[trigger] menu[i] == items[i] by {}
    if current is Some {
        assert(menu[n + 2] == FolderMenuItemView::RemoveFromFolder);
    }
    if exists|i: int|
        0 <= i < menu.len() && (#[trigger] menu[i] matches FolderMenuItemView::Assign {
            folder_id,
            ..
        } && folder_id == id) {
        let i = choose|i: int|
            0 <= i < menu.len() && (#[trigger] menu[i] matches FolderMenuItemView::Assign {
                folder_id,
                ..
            } && folder_id == id);
        assert(i < n);
        assert(items[i] == menu[i]);
    }
    if exists|i: int|
        0 <= i < items.len() && (#[trigger] items[i] matches FolderMenuItemView::Assign {
            folder_id,
            ..
        } && folder_id == id) {
        let i = choose|i: int|
            0 <= i < items.len() && (#[trigger] items[i] matches FolderMenuItemView::Assign {
                folder_id,
                ..
            } && folder_id == id);
        assert(items[i] == menu[i]);
    }
}

proof fn lemma_folder_items_assign(
    folders: Seq<ProjectFolder>,
    current: Option<ProjectFolderId>,
)
    ensures
        forall|i: int|
            0 <= i < folder_items(folders, current).len() ==> #[trigger] folder_items(
                folders,
                current,
            )[i] is Assign,
    decreases folders.len(),
{
    if folders.len() > 0 {
        lemma_folder_items_assign(folders.drop_last(), current);
    }
}

/// What a button of the footer does.
#[derive(Clone, Copy, Debug, PartialEq, Eq, Structural)]
pub enum FooterAction {
    RemoveSelected,
    RenameFolder,
    /// Moves this group to a new window.
    MoveToNewWindow(usize),
    Confirm,
    SecondaryConfirm,
}

#[derive(Debug, PartialEq, Eq)]
pub struct FooterButton {
    pub label: &'static str,
    pub action: FooterAction,
}

impl View for FooterButton {
    type V = (Seq<char>, FooterAction);

    open spec fn view(&self) -> (Seq<char>, FooterAction) {
        (self.label@, self.action)
    }
}

/// A way to open folders that are not listed.
#[derive(Clone, Copy, Debug, PartialEq, Eq, Structural)]
pub enum FolderOpening {
    /// Asks for local folders and opens them.
    Local { in_new_window: bool },
    /// Dispatches the action that opens a remote project.
    Remote { from_existing_connection: bool, create_new_window: Option<bool> },
}

impl FolderOpening {
    pub open spec fn text(self) -> Seq<char> {
        match self {
            FolderOpening::Local { .. } => "Open Local Folders"@,
            FolderOpening::Remote { .. } => "Open Remote Folder"@,
        }
    }

    pub fn label(&self) -> (r: &'static str)
        ensures
            r@ == self.text(),
    {
        match self {
            FolderOpening::Local { .. } => "Open Local Folders",
            FolderOpening::Remote { .. } => "Open Remote Folder",
        }
    }
}

/// An item of the menu behind the footer's last button.
#[derive(Clone, Copy, Debug, PartialEq, Eq, Structural)]
pub enum ActionsMenuItem {
    NewFolder,
    MoveToFolder,
    RenameFolder,
    Separator,
    AddToProject,
    OpenFolders(FolderOpening),
}

impl ActionsMenuItem {
    pub open spec fn text(self) -> Seq<char> {
        match self {
            ActionsMenuItem::NewFolder => "New Folder…"@,
            ActionsMenuItem::MoveToFolder => "Move to Folder"@,
            ActionsMenuItem::RenameFolder => "Rename Folder"@,
            ActionsMenuItem::Separator => ""@,
            ActionsMenuItem::AddToProject => "Add Folder to this Project"@,
            ActionsMenuItem::OpenFolders(opening) => opening.text(),
        }
    }

    pub fn label(&self) -> (r: &'static str)
        ensures
            r@ == self.text(),
    {
        match self {
            ActionsMenuItem::NewFolder => "New Folder…",
            ActionsMenuItem::MoveToFolder => "Move to Folder",
            ActionsMenuItem::RenameFolder => "Rename Folder",
            ActionsMenuItem::Separator => "",
            ActionsMenuItem::AddToProject => "Add Folder to this Project",
            ActionsMenuItem::OpenFolders(opening) => opening.label(),
        }
    }
}

/// The footer of the modal: the button that puts the selected project in a folder, the buttons
/// that change the selected row, the buttons that open it, and the menu of actions.
pub struct ModalFooter {
    pub move_to_folder: Option<MoveToFolder>,
    pub edit_buttons: Vec<FooterButton>,
    pub open_buttons: Vec<FooterButton>,
    pub menu: Vec<ActionsMenuItem>,
}

/// A button of the popover's footer: what it says, and what it runs.
#[derive(Debug, PartialEq, Eq)]
pub struct PopoverButton {
    pub label: &'static str,
    pub opening: FolderOpening,
}

impl View for PopoverButton {
    type V = (Seq<char>, FolderOpening);

    open spec fn view(&self) -> (Seq<char>, FolderOpening) {
        (self.label@, self.opening)
    }
}

/// The footer of the picker: the buttons of the popover, or all that the modal has.
pub enum FooterPlan {
    Popover(Vec<PopoverButton>),
    Modal(ModalFooter),
}

fn button(label: &'static str, action: FooterAction) -> (r: FooterButton)
    ensures
        r@ == (label@, action),
{
    FooterButton { label, action }
}

impl RecentProjectsDelegate {
    /// Opening local folders, in the window that the picker opens projects in.
    pub open spec fn local_opening(&self) -> FolderOpening {
        FolderOpening::Local { in_new_window: self.create_new_window }
    }

    /// Opening a remote folder over a new connection, in the window that the picker opens
    /// projects in.
    pub open spec fn remote_opening(&self) -> FolderOpening {
        FolderOpening::Remote {
            from_existing_connection: false,
            create_new_window: Some(self.create_new_window),
        }
    }

    fn folder_openings(&self) -> (r: (FolderOpening, FolderOpening))
        ensures
            r == (self.local_opening(), self.remote_opening()),
    {
        (
            FolderOpening::Local { in_new_window: self.create_new_window },
            FolderOpening::Remote {
                from_existing_connection: false,
                create_new_window: Some(self.create_new_window),
            },
        )
    }

    /// The buttons that change or remove the selected row. The active group cannot be removed,
    /// nor the draft of a folder changed.
    pub open spec fn edit_buttons(&self, active: Option<ProjectGroupKey>) -> Seq<
        (Seq<char>, FooterAction),
    > {
        match self.selected() {
            Some(EntryView::OpenFolder { .. }) => seq![
                ("Remove Folder"@, FooterAction::RemoveSelected),
            ],
            Some(EntryView::ProjectGroup(m)) => if m.candidate_id
                < self.window_project_groups@.len() && Self::active_group(
                &self.window_project_groups@[m.candidate_id as int],
                active,
            ) {
                Seq::empty()
            } else {
                seq![("Remove from Window"@, FooterAction::RemoveSelected)]
            },
            Some(EntryView::RecentProject(_)) => seq![("Remove"@, FooterAction::RemoveSelected)],
            Some(EntryView::Folder { folder_id, .. }) => if folder_id.0 >= 0 {
                seq![
                    ("Rename"@, FooterAction::RenameFolder),
                    ("Remove Folder"@, FooterAction::RemoveSelected),
                ]
            } else {
                Seq::empty()
            },
            _ => Seq::empty(),
        }
    }

    fn edit_buttons_for(&self, active: &Option<ProjectGroupKey>) -> (r: Vec<FooterButton>)
        ensures
            seqs::views(r@) == self.edit_buttons(*active),
    {
        let mut r: Vec<FooterButton> = Vec::new();
        match self.selected_entry() {
            Some(ProjectPickerEntry::OpenFolder { .. }) => {
                r.push(button("Remove Folder", FooterAction::RemoveSelected));
            },
            Some(ProjectPickerEntry::ProjectGroup(hit)) => {
                let is_active: bool = hit.candidate_id < self.window_project_groups.len()
                    && self.is_active_project_group(
                    &self.window_project_groups[hit.candidate_id],
                    active,
                );
                if !is_active {
                    r.push(button("Remove from Window", FooterAction::RemoveSelected));
                }
            },
            Some(ProjectPickerEntry::RecentProject(_)) => {
                r.push(button("Remove", FooterAction::RemoveSelected));
            },
            Some(ProjectPickerEntry::Folder { folder_id, .. }) => {
                if folder_id.0 >= 0 {
                    r.push(button("Rename", FooterAction::RenameFolder));
                    r.push(button("Remove Folder", FooterAction::RemoveSelected));
                }
            },
            _ => {},
        }
        assert(seqs::views(r@) =~= self.edit_buttons(*active));
        r
    }

    /// The selected group, where it can be moved to a new window: it is local and not the only
    /// one.
    pub open spec fn movable_group(&self) -> Option<usize> {
        match self.selected() {
            Some(EntryView::ProjectGroup(m)) => if self.window_project_groups@.len() >= 2
                && m.candidate_id < self.window_project_groups@.len()
                && self.window_project_groups@[m.candidate_id as int].host is None {
                Some(m.candidate_id)
            } else {
                None
            },
            _ => None,
        }
    }

    fn movable_group_index(&self) -> (r: Option<usize>)
        ensures
            r == self.movable_group(),
    {
        match self.selected_entry() {
            Some(ProjectPickerEntry::ProjectGroup(hit)) => {
                if self.window_project_groups.len() >= 2 && hit.candidate_id
                    < self.window_project_groups.len()
                    && self.window_project_groups[hit.candidate_id].host.is_none() {
                    Some(hit.candidate_id)
                } else {
                    None
                }
            },
            _ => None,
        }
    }

    /// The buttons that open what the selected row stands for, the primary one last. Rows that
    /// manage folders open nothing; what is open already can only be activated or moved.
    pub open spec fn open_buttons(&self) -> Seq<(Seq<char>, FooterAction)> {
        match self.selected() {
            Some(EntryView::Folder { .. }) => Seq::empty(),
            Some(EntryView::NewFolder) => Seq::empty(),
            Some(EntryView::OpenFolder { .. }) => seq![("Activate"@, FooterAction::Confirm)],
            Some(EntryView::ProjectGroup(_)) => match self.movable_group() {
                Some(g) => seq![
                    ("New Window"@, FooterAction::MoveToNewWindow(g)),
                    ("Activate"@, FooterAction::Confirm),
                ],
                None => seq![("Activate"@, FooterAction::Confirm)],
            },
            _ => if self.create_new_window {
                seq![
                    ("This Window"@, FooterAction::SecondaryConfirm),
                    ("Open"@, FooterAction::Confirm),
                ]
            } else {
                seq![
                    ("New Window"@, FooterAction::SecondaryConfirm),
                    ("Open"@, FooterAction::Confirm),
                ]
            },
        }
    }

    fn open_buttons_for(&self) -> (r: Vec<FooterButton>)
        ensures
            seqs::views(r@) == self.open_buttons(),
    {
        let mut r: Vec<FooterButton> = Vec::new();
        match self.selected_entry() {
            Some(ProjectPickerEntry::Folder { .. }) => {},
            Some(ProjectPickerEntry::NewFolder) => {},
            Some(ProjectPickerEntry::OpenFolder { .. }) => {
                r.push(button("Activate", FooterAction::Confirm));
            },
            Some(ProjectPickerEntry::ProjectGroup(_)) => {
                if let Some(g) = self.movable_group_index() {
                    r.push(button("New Window", FooterAction::MoveToNewWindow(g)));
                }
                r.push(button("Activate", FooterAction::Confirm));
            },
            _ => {
                if self.create_new_window {
                    r.push(button("This Window", FooterAction::SecondaryConfirm));
                } else {
                    r.push(button("New Window", FooterAction::SecondaryConfirm));
                }
                r.push(button("Open", FooterAction::Confirm));
            },
        }
        assert(seqs::views(r@) =~= self.open_buttons());
        r
    }

    /// The selected row is a recent project on this machine.
    pub open spec fn local_recent_selected(&self) -> bool {
        self.selected() matches Some(EntryView::RecentProject(m)) && m.candidate_id
            < self.workspaces@.len() && self.workspaces@[m.candidate_id as int].host() is None
    }

    /// The menu of actions, for the selected row.
    pub open spec fn actions_menu(&self) -> Seq<ActionsMenuItem> {
        seq![ActionsMenuItem::NewFolder] + (if self.selected_project() is Some {
            seq![ActionsMenuItem::MoveToFolder]
        } else {
            Seq::empty()
        }) + (if self.selected() matches Some(EntryView::Folder { folder_id, .. }) && folder_id.0
            >= 0 {
            seq![ActionsMenuItem::RenameFolder]
        } else {
            Seq::empty()
        }) + seq![ActionsMenuItem::Separator] + (if self.local_recent_selected() {
            seq![ActionsMenuItem::AddToProject, ActionsMenuItem::Separator]
        } else {
            Seq::empty()
        }) + seq![
            ActionsMenuItem::OpenFolders(self.local_opening()),
            ActionsMenuItem::OpenFolders(self.remote_opening()),
        ]
    }

    fn actions_menu_for(&self) -> (r: Vec<ActionsMenuItem>)
        ensures
            r@ == self.actions_menu(),
    {
        let mut r: Vec<ActionsMenuItem> = Vec::new();
        r.push(ActionsMenuItem::NewFolder);
        if self.selected_folder_assign().is_some() {
            r.push(ActionsMenuItem::MoveToFolder);
        }
        if let Some(ProjectPickerEntry::Folder { folder_id, .. }) = self.selected_entry() {
            if folder_id.0 >= 0 {
                r.push(ActionsMenuItem::RenameFolder);
            }
        }
        r.push(ActionsMenuItem::Separator);
        if let Some(ProjectPickerEntry::RecentProject(hit)) = self.selected_entry() {
            if hit.candidate_id < self.workspaces.len()
                && self.workspaces[hit.candidate_id].location.is_local() {
                r.push(ActionsMenuItem::AddToProject);
                r.push(ActionsMenuItem::Separator);
            }
        }
        let (local, remote): (FolderOpening, FolderOpening) = self.folder_openings();
        r.push(ActionsMenuItem::OpenFolders(local));
        r.push(ActionsMenuItem::OpenFolders(remote));
        assert(r@ =~= self.actions_menu());
        r
    }

    /// This is the footer's button that puts the selected project in a folder.
    pub open spec fn footer_move(&self, r: Option<MoveToFolder>) -> bool {
        match self.selected_project() {
            Some(pending) => r matches Some(m) && m.pending@ == pending && m.current_folder
                == delegate::folder_of(
                self.assignments@,
                pending.remote_identity,
                pending.identity_paths.identity(),
            ),
            None => r is None,
        }
    }

    /// The buttons of the popover, whatever row is selected.
    pub open spec fn popover_buttons(&self) -> Seq<(Seq<char>, FolderOpening)> {
        seq![
            ("Open Local Folders"@, self.local_opening()),
            ("Open Remote Folder"@, self.remote_opening()),
        ]
    }

    fn popover_buttons_for(&self) -> (r: Vec<PopoverButton>)
        ensures
            seqs::views(r@) == self.popover_buttons(),
    {
        let (local, remote): (FolderOpening, FolderOpening) = self.folder_openings();
        let mut r: Vec<PopoverButton> = Vec::new();
        r.push(PopoverButton { label: local.label(), opening: local });
        r.push(PopoverButton { label: remote.label(), opening: remote });
        assert(seqs::views(r@) =~= self.popover_buttons());
        r
    }

    /// What the footer shows. `active` is the group of the workspace that the picker was opened
    /// in.
    pub fn render_footer(&self, active: &Option<ProjectGroupKey>) -> (r: FooterPlan)
        ensures
            match r {
                FooterPlan::Popover(buttons) => {
                    &&& self.style == ProjectPickerStyle::Popover
                    &&& seqs::views(buttons@) == self.popover_buttons()
                },
                FooterPlan::Modal(footer) => {
                    &&& self.style == ProjectPickerStyle::Modal
                    &&& self.footer_move(footer.move_to_folder)
                    &&& seqs::views(footer.edit_buttons@) == self.edit_buttons(*active)
                    &&& seqs::views(footer.open_buttons@) == self.open_buttons()
                    &&& footer.menu@ == self.actions_menu()
                },
            },
    {
        match self.style {
            ProjectPickerStyle::Popover => FooterPlan::Popover(self.popover_buttons_for()),
            ProjectPickerStyle::Modal => {
                let move_to_folder: Option<MoveToFolder> = match self.selected_folder_assign() {
                    Some(pending) => {
                        let current_folder: Option<ProjectFolderId> = self.folder_id_for_identity(
                            &pending.remote_identity,
                            &pending.identity_paths,
                        );
                        Some(MoveToFolder { pending, current_folder })
                    },
                    None => None,
                };
                FooterPlan::Modal(
                    ModalFooter {
                        move_to_folder,
                        edit_buttons: self.edit_buttons_for(active),
                        open_buttons: self.open_buttons_for(),
                        menu: self.actions_menu_for(),
                    },
                )
            },
        }
    }
}

} // verus!
