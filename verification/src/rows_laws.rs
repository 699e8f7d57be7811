//! What holds of rows: what each says of the project or folder that it stands for.
use crate::delegate::RecentProjectsDelegate;
use crate::delegate_laws;
use crate::highlight;
use crate::highlight_laws;
use crate::model;
use crate::model::{
    EntryView, FolderEdit, OpenFolderEntry, ProjectGroupKey, RemoteConnection, RemoteKind,
};
use crate::path::{PathListView, PathView};
use crate::rows;
use crate::rows::{
    FolderContent, FolderRow, HighlightedProject, IconName, OpenFolderRow, ProjectGroupRow,
    RecentProjectRow, RowPlan,
};
use crate::seqs;
use crate::terms;
use crate::text;
use crate::text_laws;
use vstd::prelude::*;

verus! {

/// The icon is that of the host: a screen for this machine, a container, a penguin or a server for
/// the others.
pub open spec fn is_icon_of(icon: IconName, host: Option<RemoteConnection>) -> bool {
    &&& icon is Screen <==> host is None
    &&& host is Some ==> (icon is Container <==> host->0.kind is Docker)
    &&& host is Some ==> (icon is Linux <==> host->0.kind is Wsl)
    &&& icon is Server ==> host is Some && (host->0.kind is Ssh || host->0.kind is Mock)
    &&& icon is Screen || icon is Container || icon is Linux || icon is Server
}

/// The text is the paths' texts, one on a line.
pub open spec fn lists_paths(
    s: Seq<char>,
    paths: Seq<PathView>,
    x: (Seq<Seq<char>>, Seq<int>),
) -> bool {
    &&& x.0.len() == paths.len()
    &&& forall|i: int| 0 <= i < paths.len() ==> #[trigger] x.0[i] == paths[i].compact
    &&& text_laws::strung(x.0, "\n"@, s, x.1)
}

/// The row stands for an open folder, a group or a workspace on a host.
pub open spec fn stands_for_remote(d: &RecentProjectsDelegate, row: EntryView) -> bool {
    ||| row is OpenFolder && row->index < d.open_folders@.len()
        && d.open_folders@[row->index as int].connection_options is Some
    ||| row is ProjectGroup && row->ProjectGroup_0.candidate_id < d.window_project_groups@.len()
        && d.window_project_groups@[row->ProjectGroup_0.candidate_id as int].host is Some
    ||| row is RecentProject && row->RecentProject_0.candidate_id < d.workspaces@.len()
        && d.workspaces@[row->RecentProject_0.candidate_id as int].location is Remote
}

/// Rows carry icons as soon as one of them is remote.
pub open spec fn some_remote(d: &RecentProjectsDelegate) -> bool {
    exists|i: int| 0 <= i < d.rows().len() && stands_for_remote(d, #[trigger] d.rows()[i])
}

impl RecentProjectsDelegate {
    /// Icons are shown exactly where some row is remote, and then every icon is that of its host.
    pub proof fn rows_carry_icons_where_one_is_remote(&self, host: Option<RemoteConnection>)
        ensures
            self.row_icon(host) is Some <==> some_remote(self),
            self.row_icon(host) is Some ==> is_icon_of(self.row_icon(host)->0, host),
            self.has_remote_row() <==> some_remote(self),
    {
        assert forall|i: int| 0 <= i < self.rows().len() implies self.remote_row(
            #[trigger] self.rows()[i],
        ) == stands_for_remote(self, self.rows()[i]) by {}
        if self.has_remote_row() {
            let i = choose|i: int|
                0 <= i < self.rows().len() && self.remote_row(#[trigger] self.rows()[i]);
            assert(stands_for_remote(self, self.rows()[i]));
        }
        if some_remote(self) {
            let i = choose|i: int|
                0 <= i < self.rows().len() && stands_for_remote(self, #[trigger] self.rows()[i]);
            assert(self.remote_row(self.rows()[i]));
        }
    }

    /// A row is shown exactly where it stands for something, and as what it is.
    pub proof fn rows_show_what_they_stand_for(
        &self,
        ix: usize,
        selected: bool,
        active: Option<ProjectGroupKey>,
        r: Option<RowPlan>,
    )
        requires
            self.renders(ix, selected, active, r),
        ensures
            ix >= self.rows().len() ==> r is None,
            ix < self.rows().len() ==> match self.rows()[ix as int] {
                EntryView::Header(title) => {
                    &&& r is Some
                    &&& r->0 is Header
                    &&& r->0->title@ == title
                    &&& r->0->divider <==> ix != 0
                },
                EntryView::Folder { folder_id, name } => {
                    &&& r is Some
                    &&& r->0 is Folder
                    &&& r->0->Folder_0.folder_id == folder_id
                    &&& self.folder_row(ix, selected, folder_id, name, r->0->Folder_0)
                },
                EntryView::NewFolder => r is Some && r->0 is NewFolder,
                EntryView::OpenFolder { index, positions } => {
                    &&& r is Some <==> index < self.open_folders@.len()
                    &&& r is Some ==> r->0 is OpenFolder && self.open_folder_row(
                        selected,
                        self.open_folders@[index as int],
                        positions,
                        r->0->OpenFolder_0,
                    )
                },
                EntryView::ProjectGroup(m) => {
                    &&& r is Some <==> m.candidate_id < self.window_project_groups@.len()
                    &&& r is Some ==> r->0 is ProjectGroup && r->0->ProjectGroup_0.group
                        == m.candidate_id && self.project_group_row(
                        selected,
                        m,
                        active,
                        r->0->ProjectGroup_0,
                    )
                },
                EntryView::RecentProject(m) => {
                    &&& r is Some <==> m.candidate_id < self.workspaces@.len()
                    &&& r is Some ==> r->0 is RecentProject && r->0->RecentProject_0.workspace
                        == m.candidate_id && self.recent_project_row(
                        selected,
                        m,
                        r->0->RecentProject_0,
                    )
                },
            },
    {
    }

    /// The row of a folder shows its name, unless the folder is being created or renamed: then it
    /// shows an editor with what is wrong. The modal has actions for it while it is not edited,
    /// which show on hover unless the row is selected.
    pub proof fn folder_rows_show_a_name_or_an_editor(
        &self,
        ix: usize,
        selected: bool,
        folder_id: model::ProjectFolderId,
        name: Seq<char>,
        r: FolderRow,
    )
        requires
            self.folder_row(ix, selected, folder_id, name, r),
        ensures
            r.content is Editor <==> self.folder_edit is Some && match self.folder_edit->0 {
                FolderEdit::Create => folder_id.0 < 0,
                FolderEdit::Rename(id) => id == folder_id,
            },
            r.content matches FolderContent::Name(n) ==> n@ == name,
            r.content matches FolderContent::Editor { error } ==> error is Some
                == self.folder_edit_error is Some && (error is Some ==> error->0@
                == self.folder_edit_error->0@),
            r.actions <==> self.style is Modal && r.content is Name,
            r.actions_on_hover <==> self.style is Modal && r.content is Name && !selected,
            r.divider <==> ix != 0,
    {
    }

    /// The row of an open folder shows its name with the matched positions, its branch and whether
    /// it is active. The modal shows the path in the row; the popover in a tooltip, below the name
    /// and the branch where there is one.
    pub proof fn open_folder_rows_show_their_folder(
        &self,
        selected: bool,
        folder: OpenFolderEntry,
        positions: Seq<usize>,
        r: OpenFolderRow,
    )
        requires
            self.open_folder_row(selected, folder, positions, r),
        ensures
            r.worktree_id == folder.worktree_id,
            r.icon is Some <==> some_remote(self),
            r.icon is Some ==> is_icon_of(r.icon->0, folder.connection_options),
            r.name.text@ == folder.name@,
            r.name.highlight_positions@ == positions,
            r.branch is Some == folder.branch is Some,
            r.branch is Some ==> r.branch->0@ == folder.branch->0@,
            r.is_active == folder.is_active,
            r.path is Some <==> self.style is Modal,
            r.path is Some ==> r.path->0@ == folder.path.compact@,
            r.tooltip is Some <==> self.style is Popover,
            r.tooltip is Some ==> r.tooltip->0.text@ == folder.path.compact@,
            r.tooltip is Some ==> r.tooltip->0.title is Some == folder.branch is Some,
            r.tooltip is Some && folder.branch is Some ==> {
                let title = r.tooltip->0.title->0@;
                let n = folder.name@.len() as int;
                &&& title.len() == n + 1 + folder.branch->0@.len()
                &&& title.take(n) == folder.name@
                &&& title[n] == '/'
                &&& title.skip(n + 1) == folder.branch->0@
            },
            r.actions_on_hover <==> !selected,
    {
        self.rows_carry_icons_where_one_is_remote(folder.connection_options);
        if r.tooltip is Some && folder.branch is Some {
            reveal_strlit("/");
            let title = r.tooltip->0.title->0@;
            let n = folder.name@.len() as int;
            assert(title == folder.name@ + "/"@ + folder.branch->0@);
            assert(title.take(n) =~= folder.name@);
            assert(title.skip(n + 1) =~= folder.branch->0@);
        }
    }

    /// The row of a group shows the names of its paths, and the paths themselves where they are
    /// rendered, with the matched positions. It is active where it has the options and the paths
    /// of the active group; its tooltip lists the paths, one on a line; a local group of several
    /// may be moved to a new window; and the modal may put it in another folder.
    pub proof fn group_rows_show_their_group(
        &self,
        selected: bool,
        hit: model::MatchView,
        active: Option<ProjectGroupKey>,
        r: ProjectGroupRow,
    ) -> (x: (Seq<Seq<char>>, Seq<int>))
        requires
            hit.candidate_id < self.window_project_groups@.len(),
            self.project_group_row(selected, hit, active, r),
        ensures
            ({
                let key = self.window_project_groups@[hit.candidate_id as int];
                let paths = key.paths@.ordered_paths;
                &&& r.group == hit.candidate_id
                &&& r.icon is Some <==> some_remote(self)
                &&& r.icon is Some ==> is_icon_of(r.icon->0, key.host)
                &&& r.project.prefix is None
                &&& seqs::views(r.project.labels@) == highlight::name_highlights(
                    paths,
                    hit.positions,
                )
                &&& self.render_paths ==> seqs::views(r.project.paths@)
                    == highlight::path_highlights(paths, hit.positions)
                &&& !self.render_paths ==> r.project.paths@.len() == 0
                &&& r.project.active <==> active is Some && terms::reached_alike(
                    key.host,
                    active->0.host,
                ) && terms::same_list(key.paths, active->0.paths)
                &&& lists_paths(r.tooltip@, paths, x)
                &&& r.move_to_folder is Some <==> self.style is Modal
                &&& r.move_to_folder is Some ==> {
                    &&& terms::files_under(
                        r.move_to_folder->0.pending.remote_identity@,
                        key.host,
                    )
                    &&& r.move_to_folder->0.pending.identity_paths@ == key.paths@
                    &&& r.move_to_folder->0.current_folder == self.group_folder(&key)
                }
                &&& r.move_to_new_window <==> key.host is None
                    && self.window_project_groups@.len() > 1
                &&& r.actions_on_hover <==> !selected
            }),
    {
        let key = self.window_project_groups@[hit.candidate_id as int];
        let paths = key.paths@.ordered_paths;
        let texts = rows::compact_texts(paths);
        self.rows_carry_icons_where_one_is_remote(key.host);
        Self::the_active_group_is_active(&key, active);
        assert(!self.render_paths ==> seqs::views(r.project.paths@).len() == r.project.paths@.len());
        let starts = text_laws::joined_texts_are_strung(texts, "\n"@);
        (texts, starts)
    }

    /// The row of a recent project shows the names of its paths, below its host's name, and the
    /// paths themselves where they are rendered, with the matched positions. Its tooltip lists the
    /// paths, one on a line, and ends with the host in brackets, behind a single path or below
    /// several; the folders of a local one may be added to the active project; and the modal may
    /// put it in another folder.
    pub proof fn recent_rows_show_their_project(
        &self,
        selected: bool,
        hit: model::MatchView,
        r: RecentProjectRow,
    ) -> (x: (Seq<Seq<char>>, Seq<int>))
        requires
            hit.candidate_id < self.workspaces@.len(),
            self.recent_project_row(selected, hit, r),
        ensures
            ({
                let w = self.workspaces@[hit.candidate_id as int];
                let host = terms::host_of(w.location);
                let paths = w.identity_paths@.ordered_paths;
                let tail: nat = if host is Some {
                    3 + host->0.display_name@.len()
                } else {
                    0
                };
                let n: int = r.tooltip@.len() - tail;
                &&& r.workspace == hit.candidate_id
                &&& r.icon is Some <==> some_remote(self)
                &&& r.icon is Some ==> is_icon_of(r.icon->0, host)
                &&& r.project.prefix is Some == host is Some
                &&& host is Some ==> r.project.prefix->0@ == host->0.display_name@
                &&& seqs::views(r.project.labels@) == highlight::name_highlights(
                    paths,
                    hit.positions,
                )
                &&& self.render_paths ==> seqs::views(r.project.paths@)
                    == highlight::path_highlights(paths, hit.positions)
                &&& !self.render_paths ==> r.project.paths@.len() == 0
                &&& !r.project.active
                &&& n >= 0
                &&& lists_paths(r.tooltip@.take(n), paths, x)
                &&& host is Some ==> {
                    &&& r.tooltip@[n] == if paths.len() == 1 {
                        ' '
                    } else {
                        '\n'
                    }
                    &&& r.tooltip@[n + 1] == '('
                    &&& r.tooltip@.subrange(n + 2, r.tooltip@.len() - 1) == host->0.display_name@
                    &&& r.tooltip@.last() == ')'
                }
                &&& r.add_to_project is Some <==> w.location is Local
                &&& r.add_to_project is Some ==> seqs::views(r.add_to_project->0.paths@)
                    == seqs::views(w.paths.paths@)
                &&& r.add_to_project is Some ==> (r.add_to_project->0.title@
                    == "Add Folders to this Project"@ <==> paths.len() > 1)
                &&& r.add_to_project is Some ==> (r.add_to_project->0.title@
                    == "Add Folder to this Project"@ <==> paths.len() <= 1)
                &&& r.move_to_folder is Some <==> self.style is Modal
                &&& r.move_to_folder is Some ==> {
                    &&& terms::files_under(r.move_to_folder->0.pending.remote_identity@, host)
                    &&& r.move_to_folder->0.pending.identity_paths@ == w.identity_paths@
                    &&& r.move_to_folder->0.current_folder == self.workspace_folder(&w)
                }
                &&& r.actions_on_hover <==> !selected
            }),
    {
        let w = self.workspaces@[hit.candidate_id as int];
        let host = terms::host_of(w.location);
        let paths = w.identity_paths@.ordered_paths;
        let texts = rows::compact_texts(paths);
        self.rows_carry_icons_where_one_is_remote(host);
        assert(!self.render_paths ==> seqs::views(r.project.paths@).len() == r.project.paths@.len());
        let starts = text_laws::joined_texts_are_strung(texts, "\n"@);
        let joined = text::joined(texts, "\n"@);
        reveal_strlit("Add Folders to this Project");
        reveal_strlit("Add Folder to this Project");
        assert("Add Folders to this Project"@.len() != "Add Folder to this Project"@.len());
        if host is Some {
            reveal_strlit(" (");
            reveal_strlit("\n(");
            reveal_strlit(")");
            let name = host->0.display_name@;
            let n: int = joined.len() as int;
            if paths.len() == 1 {
                assert(r.tooltip@ == joined + " ("@ + name + ")"@);
            } else {
                assert(r.tooltip@ == joined + "\n("@ + name + ")"@);
            }
            assert(r.tooltip@.take(n) =~= joined);
            assert(r.tooltip@.subrange(n + 2, r.tooltip@.len() - 1) =~= name);
        } else {
            assert(r.tooltip@.take(joined.len() as int) =~= joined);
        }
        (texts, starts)
    }

    /// Every row can be rendered where the positions come in increasing order, the names stand in
    /// their paths, and the paths together are no longer than a position can say.
    pub proof fn rows_with_ascending_positions_can_be_rendered(&self, ix: usize)
        requires
            ix < self.rows().len() ==> match self.rows()[ix as int] {
                EntryView::ProjectGroup(m) => m.candidate_id < self.window_project_groups@.len()
                    ==> {
                    let paths =
                        self.window_project_groups@[m.candidate_id as int].paths@.ordered_paths;
                    &&& highlight::ascending(m.positions)
                    &&& highlight::total_len(paths) <= usize::MAX
                    &&& forall|i: int| 0 <= i < paths.len() ==> (#[trigger] paths[i]).named()
                },
                EntryView::RecentProject(m) => m.candidate_id < self.workspaces@.len() ==> {
                    let paths = self.workspaces@[m.candidate_id as int].identity_paths@.ordered_paths;
                    &&& highlight::ascending(m.positions)
                    &&& highlight::total_len(paths) <= usize::MAX
                    &&& forall|i: int| 0 <= i < paths.len() ==> (#[trigger] paths[i]).named()
                },
                _ => true,
            },
        ensures
            self.row_fits(ix),
    {
        if ix < self.rows().len() {
            match self.rows()[ix as int] {
                EntryView::ProjectGroup(m) => {
                    if m.candidate_id < self.window_project_groups@.len() {
                        highlight::ascending_positions_fit_lists(
                            self.window_project_groups@[m.candidate_id as int].paths@.ordered_paths,
                            m.positions,
                        );
                    }
                },
                EntryView::RecentProject(m) => {
                    if m.candidate_id < self.workspaces@.len() {
                        highlight::ascending_positions_fit_lists(
                            self.workspaces@[m.candidate_id as int].identity_paths@.ordered_paths,
                            m.positions,
                        );
                    }
                },
                _ => {},
            }
        }
    }
}

} // verus!
