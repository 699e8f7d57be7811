//! What each row of the picker shows: its texts, icons, tooltips and buttons.
use crate::delegate::RecentProjectsDelegate;
use crate::highlight;
use crate::highlight::{HighlightedText, HighlightedView};
use crate::model;
use crate::model::{
    EntryView, MatchView, OpenFolderEntry, PendingFolderAssign, PendingView, ProjectFolderId,
    ProjectGroupKey, ProjectPickerEntry, ProjectPickerStyle, RecentWorkspace, RemoteConnection,
    RemoteKind, StringMatch, WorktreeId,
};
use crate::path;
use crate::path::{PathList, PathListView, PathView, ProjectPath};
use crate::seqs;
use crate::text;
use vstd::prelude::*;

verus! {

/// The icons that rows and buttons carry.
#[derive(Clone, Copy, Debug, PartialEq, Eq, Structural)]
pub enum IconName {
    Screen,
    Server,
    Linux,
    Container,
    ThisWindow,
    ArrowUpRight,
}

/// The icon of a host: a screen stands for this machine.
pub open spec fn host_icon(host: Option<RemoteConnection>) -> IconName {
    match host {
        None => IconName::Screen,
        Some(connection) => match connection.kind {
            RemoteKind::Ssh => IconName::Server,
            RemoteKind::Wsl => IconName::Linux,
            RemoteKind::Docker => IconName::Container,
            RemoteKind::Mock => IconName::Server,
        },
    }
}

pub fn icon_for_remote_connection(host: &Option<RemoteConnection>) -> (r: IconName)
    ensures
        r == host_icon(*host),
{
    match host {
        None => IconName::Screen,
        Some(connection) => match connection.kind {
            RemoteKind::Ssh => IconName::Server,
            RemoteKind::Wsl => IconName::Linux,
            RemoteKind::Docker => IconName::Container,
            RemoteKind::Mock => IconName::Server,
        },
    }
}

pub fn icon_for_project_group(key: &ProjectGroupKey) -> (r: IconName)
    ensures
        r == host_icon(key.host),
{
    icon_for_remote_connection(&key.host)
}

/// The window that a project is opened in.
#[derive(Clone, Copy, Debug, PartialEq, Eq, Structural)]
pub enum TargetWindow {
    This,
    New,
}

impl TargetWindow {
    pub open spec fn other(self) -> TargetWindow {
        match self {
            TargetWindow::This => TargetWindow::New,
            TargetWindow::New => TargetWindow::This,
        }
    }

    pub open spec fn tooltip_text(self) -> Seq<char> {
        match self {
            TargetWindow::This => "Open Project in This Window"@,
            TargetWindow::New => "Open Project in New Window"@,
        }
    }

    pub open spec fn button_icon(self) -> IconName {
        match self {
            TargetWindow::This => IconName::ThisWindow,
            TargetWindow::New => IconName::ArrowUpRight,
        }
    }

    /// What confirming a project says it does.
    pub fn confirm_tooltip(&self) -> (r: &'static str)
        ensures
            r@ == self.tooltip_text(),
    {
        match self {
            TargetWindow::This => "Open Project in This Window",
            TargetWindow::New => "Open Project in New Window",
        }
    }

    /// The icon of the button that opens a project in this window.
    pub fn confirm_icon(&self) -> (r: IconName)
        ensures
            r == self.button_icon(),
    {
        match self {
            TargetWindow::This => IconName::ThisWindow,
            TargetWindow::New => IconName::ArrowUpRight,
        }
    }
}

/// A tooltip: its text, below a title where it has one.
pub struct RowTooltip {
    pub title: Option<String>,
    pub text: String,
}

/// The button that puts a project in a folder: the project, and the folder that holds it now.
pub struct MoveToFolder {
    pub pending: PendingFolderAssign,
    pub current_folder: Option<ProjectFolderId>,
}

/// A project's names and paths, with what the query matched in them.
///
/// - `prefix`: the host, for a project on a remote one;
/// - `labels`: the names of the paths, to be joined by commas;
/// - `paths`: the paths, where they are shown;
/// - `active`: the project is the active one.
pub struct HighlightedProject {
    pub prefix: Option<String>,
    pub labels: Vec<HighlightedText>,
    pub paths: Vec<HighlightedText>,
    pub active: bool,
}

/// What the row of a folder shows: its name, or the editor for it with what is wrong with it.
pub enum FolderContent {
    Name(String),
    Editor { error: Option<String> },
}

pub struct FolderRow {
    pub folder_id: ProjectFolderId,
    pub divider: bool,
    pub content: FolderContent,
    pub actions: bool,
    pub actions_on_hover: bool,
}

pub struct OpenFolderRow {
    pub worktree_id: WorktreeId,
    pub icon: Option<IconName>,
    pub name: HighlightedText,
    pub branch: Option<String>,
    pub is_active: bool,
    pub path: Option<String>,
    pub tooltip: Option<RowTooltip>,
    pub actions_on_hover: bool,
}

pub struct ProjectGroupRow {
    pub group: usize,
    pub icon: Option<IconName>,
    pub project: HighlightedProject,
    pub tooltip: String,
    pub move_to_folder: Option<MoveToFolder>,
    pub move_to_new_window: bool,
    pub actions_on_hover: bool,
}

/// The button that adds a project's folders to the active project.
pub struct AddToProject {
    pub title: &'static str,
    pub paths: Vec<ProjectPath>,
}

pub struct RecentProjectRow {
    pub workspace: usize,
    pub icon: Option<IconName>,
    pub project: HighlightedProject,
    pub tooltip: String,
    pub primary: TargetWindow,
    pub secondary: TargetWindow,
    pub add_to_project: Option<AddToProject>,
    pub move_to_folder: Option<MoveToFolder>,
    pub actions_on_hover: bool,
}

/// What a row shows.
pub enum RowPlan {
    Header { title: String, divider: bool },
    Folder(FolderRow),
    NewFolder,
    OpenFolder(OpenFolderRow),
    ProjectGroup(ProjectGroupRow),
    RecentProject(RecentProjectRow),
}

/// The abbreviated texts of the paths.
pub open spec fn compact_texts(paths: Seq<PathView>) -> Seq<Seq<char>> {
    Seq::new(paths.len(), |i: int| paths[i].compact)
}

fn texts_of(paths: &Vec<ProjectPath>) -> (r: Vec<String>)
    ensures
        seqs::views(r@) == compact_texts(seqs::views(paths@)),
{
    let mut r: Vec<String> = Vec::new();
    let mut i: usize = 0;
    while i < paths.len()
        invariant
            i <= paths@.len(),
            r@.len() == i,
            forall|j: int| 0 <= j < i ==> (#[trigger] r@[j])@ == paths@[j].compact@,
        decreases paths@.len() - i,
    {
        r.push(paths[i].compact.clone());
        i = i + 1;
    }
    assert(seqs::views(r@) =~= compact_texts(seqs::views(paths@)));
    r
}

/// The paths of a recent project, one on a line, with its host in brackets: behind a single
/// path, below several.
pub open spec fn recent_tooltip(paths: Seq<PathView>, host: Option<RemoteConnection>) -> Seq<char> {
    let texts = compact_texts(paths);
    match host {
        None => text::joined(texts, "\n"@),
        Some(h) => if texts.len() == 1 {
            texts[0] + " ("@ + h.display_name@ + ")"@
        } else {
            text::joined(texts, "\n"@) + "\n("@ + h.display_name@ + ")"@
        },
    }
}

fn tooltip_for_recent(paths: &Vec<ProjectPath>, host: &Option<RemoteConnection>) -> (r: String)
    ensures
        r@ == recent_tooltip(seqs::views(paths@), *host),
{
    let texts: Vec<String> = texts_of(paths);
    assert(seqs::views(texts@).len() == texts@.len());
    match host {
        None => text::join(&texts, "\n"),
        Some(h) => {
            if texts.len() == 1 {
                assert(seqs::views(texts@)[0] == texts@[0]@);
                texts[0].clone().concat(" (").concat(h.display_name.as_str()).concat(")")
            } else {
                text::join(&texts, "\n").concat("\n(").concat(h.display_name.as_str()).concat(")")
            }
        },
    }
}

/// What the button that adds a project with this many folders says.
pub open spec fn add_title(n: nat) -> Seq<char> {
    if n > 1 {
        "Add Folders to this Project"@
    } else {
        "Add Folder to this Project"@
    }
}

/// The host's name, for a remote host.
pub open spec fn host_name(host: Option<RemoteConnection>) -> Option<Seq<char>> {
    match host {
        Some(h) => Some(h.display_name@),
        None => None,
    }
}

impl HighlightedProject {
    /// This is how the project with these paths is shown.
    pub open spec fn shows(
        &self,
        paths: PathListView,
        positions: Seq<usize>,
        with_paths: bool,
        prefix: Option<Seq<char>>,
        active: bool,
    ) -> bool {
        &&& path::text_option(self.prefix) == prefix
        &&& seqs::views(self.labels@) == highlight::name_highlights(
            paths.ordered_paths,
            positions,
        )
        &&& seqs::views(self.paths@) == (if with_paths {
            highlight::path_highlights(paths.ordered_paths, positions)
        } else {
            Seq::empty()
        })
        &&& self.active == active
    }
}

fn highlighted_project(
    paths: &PathList,
    positions: &Vec<usize>,
    with_paths: bool,
    prefix: Option<String>,
    active: bool,
) -> (r: HighlightedProject)
    requires
        highlight::paths_fit(paths@.ordered_paths, positions@),
    ensures
        r.shows(paths@, positions@, with_paths, path::text_option(prefix), active),
{
    let (labels, texts) = highlight::highlights_for_paths(&paths.ordered_paths, positions).unwrap();
    let mut shown: Vec<HighlightedText> = texts;
    if !with_paths {
        shown = Vec::new();
        assert(seqs::views(shown@) =~= Seq::empty());
    }
    HighlightedProject { prefix, labels, paths: shown, active }
}

fn clone_text(s: &Option<String>) -> (r: Option<String>)
    ensures
        path::text_option(r) == path::text_option(*s),
{
    match s {
        Some(t) => Some(t.clone()),
        None => None,
    }
}

impl RecentProjectsDelegate {
    /// The window that confirming a recent project opens it in; a secondary confirm takes the
    /// other one.
    pub open spec fn target_window(&self, secondary: bool) -> TargetWindow {
        if self.create_new_window == secondary {
            TargetWindow::This
        } else {
            TargetWindow::New
        }
    }

    pub fn window_for(&self, secondary: bool) -> (r: TargetWindow)
        ensures
            r == self.target_window(secondary),
    {
        if self.create_new_window == secondary {
            TargetWindow::This
        } else {
            TargetWindow::New
        }
    }

    /// Primary and secondary confirm open a project in different windows.
    pub proof fn confirms_choose_different_windows(&self, secondary: bool)
        ensures
            self.target_window(!secondary) == self.target_window(secondary).other(),
    {
    }

    /// The icon of a row for a project on `host`: rows carry icons once a remote project is
    /// listed.
    pub open spec fn row_icon(&self, host: Option<RemoteConnection>) -> Option<IconName> {
        if self.has_remote_row() {
            Some(host_icon(host))
        } else {
            None
        }
    }

    fn icon_for_row(&self, host: &Option<RemoteConnection>) -> (r: Option<IconName>)
        ensures
            r == self.row_icon(*host),
    {
        if self.filtered_entries_include_remote_project() {
            Some(icon_for_remote_connection(host))
        } else {
            None
        }
    }

    /// The row can be rendered: the match positions of the project that it stands for can be cut
    /// to its paths.
    pub open spec fn row_fits(&self, ix: usize) -> bool {
        ix < self.rows().len() ==> match self.rows()[ix as int] {
            EntryView::ProjectGroup(m) => m.candidate_id < self.window_project_groups@.len()
                ==> highlight::paths_fit(
                self.window_project_groups@[m.candidate_id as int].paths@.ordered_paths,
                m.positions,
            ),
            EntryView::RecentProject(m) => m.candidate_id < self.workspaces@.len()
                ==> highlight::paths_fit(
                self.workspaces@[m.candidate_id as int].identity_paths@.ordered_paths,
                m.positions,
            ),
            _ => true,
        }
    }

    /// Whether the row can be rendered.
    pub fn can_render_match(&self, ix: usize) -> (r: bool)
        ensures
            r == self.row_fits(ix),
    {
        if ix >= self.filtered_entries.len() {
            return true;
        }
        assert(self.rows()[ix as int] == self.filtered_entries@[ix as int]@);
        match &self.filtered_entries[ix] {
            ProjectPickerEntry::ProjectGroup(hit) => hit.candidate_id
                >= self.window_project_groups.len() || highlight::highlights_for_paths(
                &self.window_project_groups[hit.candidate_id].paths.ordered_paths,
                &hit.positions,
            ).is_some(),
            ProjectPickerEntry::RecentProject(hit) => hit.candidate_id >= self.workspaces.len()
                || highlight::highlights_for_paths(
                &self.workspaces[hit.candidate_id].identity_paths.ordered_paths,
                &hit.positions,
            ).is_some(),
            _ => true,
        }
    }

    /// This is the row of a folder.
    pub open spec fn folder_row(
        &self,
        ix: usize,
        selected: bool,
        folder_id: ProjectFolderId,
        name: Seq<char>,
        r: FolderRow,
    ) -> bool {
        let editing = (self.creating() && folder_id.0 < 0) || self.editing(folder_id);
        &&& r.folder_id == folder_id
        &&& r.divider == (ix > 0)
        &&& match r.content {
            FolderContent::Name(n) => !editing && n@ == name,
            FolderContent::Editor { error } => editing && path::text_option(error)
                == path::text_option(self.folder_edit_error),
        }
        &&& r.actions == (self.style == ProjectPickerStyle::Modal && !editing)
        &&& r.actions_on_hover == (r.actions && !selected)
    }

    fn render_folder(
        &self,
        ix: usize,
        selected: bool,
        folder_id: ProjectFolderId,
        name: &String,
    ) -> (r: FolderRow)
        ensures
            self.folder_row(ix, selected, folder_id, name@, r),
    {
        let editing: bool = self.is_draft_folder(folder_id) || self.is_editing_folder(folder_id);
        let content: FolderContent = if editing {
            FolderContent::Editor { error: clone_text(&self.folder_edit_error) }
        } else {
            FolderContent::Name(name.clone())
        };
        let actions: bool = self.style == ProjectPickerStyle::Modal && !editing;
        FolderRow {
            folder_id,
            divider: ix > 0,
            content,
            actions,
            actions_on_hover: actions && !selected,
        }
    }

    /// This is the row of an open folder: the modal shows its path, the popover has it in a
    /// tooltip, below the name and the branch.
    pub open spec fn open_folder_row(
        &self,
        selected: bool,
        folder: OpenFolderEntry,
        positions: Seq<usize>,
        r: OpenFolderRow,
    ) -> bool {
        &&& r.worktree_id == folder.worktree_id
        &&& r.icon == self.row_icon(folder.connection_options)
        &&& r.name@ == (HighlightedView { text: folder.name@, highlight_positions: positions })
        &&& path::text_option(r.branch) == path::text_option(folder.branch)
        &&& r.is_active == folder.is_active
        &&& path::text_option(r.path) == (if self.style == ProjectPickerStyle::Modal {
            Some(folder.path@.compact)
        } else {
            None
        })
        &&& r.tooltip is Some == (self.style != ProjectPickerStyle::Modal)
        &&& r.tooltip matches Some(t) ==> t.text@ == folder.path@.compact && path::text_option(
            t.title,
        ) == (match folder.branch {
            Some(branch) => Some(folder.name@ + "/"@ + branch@),
            None => None,
        })
        &&& r.actions_on_hover == !selected
    }

    fn render_open_folder(
        &self,
        selected: bool,
        folder: &OpenFolderEntry,
        positions: &Vec<usize>,
    ) -> (r: OpenFolderRow)
        ensures
            self.open_folder_row(selected, *folder, positions@, r),
    {
        let shows_path: bool = self.style == ProjectPickerStyle::Modal;
        let highlight_positions: Vec<usize> = positions.clone();
        assert(highlight_positions@ =~= positions@);
        let tooltip: Option<RowTooltip> = if shows_path {
            None
        } else {
            let title: Option<String> = match &folder.branch {
                Some(branch) => Some(folder.name.clone().concat("/").concat(branch.as_str())),
                None => None,
            };
            Some(RowTooltip { title, text: folder.path.compact.clone() })
        };
        OpenFolderRow {
            worktree_id: folder.worktree_id,
            icon: self.icon_for_row(&folder.connection_options),
            name: HighlightedText { text: folder.name.clone(), highlight_positions },
            branch: clone_text(&folder.branch),
            is_active: folder.is_active,
            path: if shows_path {
                Some(folder.path.compact.clone())
            } else {
                None
            },
            tooltip,
            actions_on_hover: !selected,
        }
    }

    /// This is the button that puts the project in a folder: the modal has it.
    pub open spec fn move_button(
        &self,
        pending: PendingView,
        current_folder: Option<ProjectFolderId>,
        r: Option<MoveToFolder>,
    ) -> bool {
        &&& r is Some == (self.style == ProjectPickerStyle::Modal)
        &&& r matches Some(m) ==> m.pending@ == pending && m.current_folder == current_folder
    }

    /// This is the row of a project group. A local group may be moved to a new window while the
    /// window holds another group.
    pub open spec fn project_group_row(
        &self,
        selected: bool,
        hit: MatchView,
        active: Option<ProjectGroupKey>,
        r: ProjectGroupRow,
    ) -> bool {
        let key = self.window_project_groups@[hit.candidate_id as int];
        &&& r.group == hit.candidate_id
        &&& r.icon == self.row_icon(key.host)
        &&& r.project.shows(
            key.paths@,
            hit.positions,
            self.render_paths,
            None,
            Self::active_group(&key, active),
        )
        &&& r.tooltip@ == text::joined(compact_texts(key.paths@.ordered_paths), "\n"@)
        &&& self.move_button(
            PendingView {
                remote_identity: model::folder_identity(key.host),
                identity_paths: key.paths@,
            },
            self.group_folder(&key),
            r.move_to_folder,
        )
        &&& r.move_to_new_window == (key.host is None && self.window_project_groups@.len() >= 2)
        &&& r.actions_on_hover == !selected
    }

    fn render_project_group(
        &self,
        selected: bool,
        hit: &StringMatch,
        active: &Option<ProjectGroupKey>,
    ) -> (r: ProjectGroupRow)
        requires
            hit.candidate_id < self.window_project_groups@.len(),
            highlight::paths_fit(
                self.window_project_groups@[hit.candidate_id as int].paths@.ordered_paths,
                hit.positions@,
            ),
        ensures
            self.project_group_row(selected, hit@, *active, r),
    {
        let key: &ProjectGroupKey = &self.window_project_groups[hit.candidate_id];
        let move_to_folder: Option<MoveToFolder> = if self.style == ProjectPickerStyle::Modal {
            Some(
                MoveToFolder {
                    pending: PendingFolderAssign::from_project_group(key),
                    current_folder: self.folder_id_for_project_group(key),
                },
            )
        } else {
            None
        };
        ProjectGroupRow {
            group: hit.candidate_id,
            icon: self.icon_for_row(&key.host),
            project: highlighted_project(
                &key.paths,
                &hit.positions,
                self.render_paths,
                None,
                self.is_active_project_group(key, active),
            ),
            tooltip: text::join(&texts_of(&key.paths.ordered_paths), "\n"),
            move_to_folder,
            move_to_new_window: key.host.is_none() && self.window_project_groups.len() >= 2,
            actions_on_hover: !selected,
        }
    }

    /// This is the row of a recent project. The folders of a local one may be added to the active
    /// project.
    pub open spec fn recent_project_row(
        &self,
        selected: bool,
        hit: MatchView,
        r: RecentProjectRow,
    ) -> bool {
        let workspace = self.workspaces@[hit.candidate_id as int];
        let shown = workspace.identity_paths@.ordered_paths;
        &&& r.workspace == hit.candidate_id
        &&& r.icon == self.row_icon(workspace.host())
        &&& r.project.shows(
            workspace.identity_paths@,
            hit.positions,
            self.render_paths,
            host_name(workspace.host()),
            false,
        )
        &&& r.tooltip@ == recent_tooltip(shown, workspace.host())
        &&& r.primary == self.target_window(false)
        &&& r.secondary == self.target_window(true)
        &&& r.add_to_project is Some == workspace.host() is None
        &&& r.add_to_project matches Some(add) ==> add.title@ == add_title(shown.len())
            && seqs::views(add.paths@) == workspace.paths@.paths
        &&& self.move_button(
            PendingView {
                remote_identity: model::folder_identity(workspace.host()),
                identity_paths: workspace.identity_paths@,
            },
            self.workspace_folder(&workspace),
            r.move_to_folder,
        )
        &&& r.actions_on_hover == !selected
    }

    fn render_recent_project(&self, selected: bool, hit: &StringMatch) -> (r: RecentProjectRow)
        requires
            hit.candidate_id < self.workspaces@.len(),
            highlight::paths_fit(
                self.workspaces@[hit.candidate_id as int].identity_paths@.ordered_paths,
                hit.positions@,
            ),
        ensures
            self.recent_project_row(selected, hit@, r),
    {
        let workspace: &RecentWorkspace = &self.workspaces[hit.candidate_id];
        let host: Option<RemoteConnection> = workspace.location.connection();
        let prefix: Option<String> = match &host {
            Some(h) => Some(h.display_name.clone()),
            None => None,
        };
        let add_to_project: Option<AddToProject> = if host.is_none() {
            let title: &'static str = if workspace.identity_paths.ordered_paths.len() > 1 {
                "Add Folders to this Project"
            } else {
                "Add Folder to this Project"
            };
            Some(AddToProject { title, paths: path::clone_paths(&workspace.paths.paths) })
        } else {
            None
        };
        let move_to_folder: Option<MoveToFolder> = if self.style == ProjectPickerStyle::Modal {
            Some(
                MoveToFolder {
                    pending: PendingFolderAssign::from_workspace(workspace),
                    current_folder: self.folder_id_for_workspace(workspace),
                },
            )
        } else {
            None
        };
        RecentProjectRow {
            workspace: hit.candidate_id,
            icon: self.icon_for_row(&host),
            project: highlighted_project(
                &workspace.identity_paths,
                &hit.positions,
                self.render_paths,
                prefix,
                false,
            ),
            tooltip: tooltip_for_recent(&workspace.identity_paths.ordered_paths, &host),
            primary: self.window_for(false),
            secondary: self.window_for(true),
            add_to_project,
            move_to_folder,
            actions_on_hover: !selected,
        }
    }

    /// This is what row `ix` shows; a row that stands for nothing shows nothing. `active` is the
    /// group of the workspace that the picker was opened in.
    pub open spec fn renders(
        &self,
        ix: usize,
        selected: bool,
        active: Option<ProjectGroupKey>,
        r: Option<RowPlan>,
    ) -> bool {
        if ix >= self.rows().len() {
            r is None
        } else {
            match self.rows()[ix as int] {
                EntryView::Header(title) => r matches Some(RowPlan::Header { title: t, divider })
                    && t@ == title && divider == (ix > 0),
                EntryView::Folder { folder_id, name } => r matches Some(RowPlan::Folder(row))
                    && self.folder_row(ix, selected, folder_id, name, row),
                EntryView::NewFolder => r == Some(RowPlan::NewFolder),
                EntryView::OpenFolder { index, positions } => if index < self.open_folders@.len() {
                    r matches Some(RowPlan::OpenFolder(row)) && self.open_folder_row(
                        selected,
                        self.open_folders@[index as int],
                        positions,
                        row,
                    )
                } else {
                    r is None
                },
                EntryView::ProjectGroup(hit) => if hit.candidate_id
                    < self.window_project_groups@.len() {
                    r matches Some(RowPlan::ProjectGroup(row)) && self.project_group_row(
                        selected,
                        hit,
                        active,
                        row,
                    )
                } else {
                    r is None
                },
                EntryView::RecentProject(hit) => if hit.candidate_id < self.workspaces@.len() {
                    r matches Some(RowPlan::RecentProject(row)) && self.recent_project_row(
                        selected,
                        hit,
                        row,
                    )
                } else {
                    r is None
                },
            }
        }
    }

    /// What row `ix` shows, where it stands for something.
    pub fn render_match(
        &self,
        ix: usize,
        selected: bool,
        active: &Option<ProjectGroupKey>,
    ) -> (r: Option<RowPlan>)
        requires
            self.row_fits(ix),
        ensures
            self.renders(ix, selected, *active, r),
    {
        if ix >= self.filtered_entries.len() {
            return None;
        }
        assert(self.rows()[ix as int] == self.filtered_entries@[ix as int]@);
        match &self.filtered_entries[ix] {
            ProjectPickerEntry::Header(title) => Some(
                RowPlan::Header { title: title.clone(), divider: ix > 0 },
            ),
            ProjectPickerEntry::Folder { folder_id, name } => Some(
                RowPlan::Folder(self.render_folder(ix, selected, *folder_id, name)),
            ),
            ProjectPickerEntry::NewFolder => Some(RowPlan::NewFolder),
            ProjectPickerEntry::OpenFolder { index, positions } => {
                if *index < self.open_folders.len() {
                    Some(
                        RowPlan::OpenFolder(
                            self.render_open_folder(
                                selected,
                                &self.open_folders[*index],
                                positions,
                            ),
                        ),
                    )
                } else {
                    None
                }
            },
            ProjectPickerEntry::ProjectGroup(hit) => {
                if hit.candidate_id < self.window_project_groups.len() {
                    Some(RowPlan::ProjectGroup(self.render_project_group(selected, hit, active)))
                } else {
                    None
                }
            },
            ProjectPickerEntry::RecentProject(hit) => {
                if hit.candidate_id < self.workspaces.len() {
                    Some(RowPlan::RecentProject(self.render_recent_project(selected, hit)))
                } else {
                    None
                }
            },
        }
    }
}

} // verus!
