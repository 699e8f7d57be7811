//! What holds of hosts, keys, matches and rows by themselves.
use crate::delegate::RecentProjectsDelegate;
use crate::delegate_laws;
use crate::model;
use crate::model::{
    EntryView, OpenFolderEntry, ProjectGroupKey, ProjectPickerEntry, RecentWorkspace,
    RemoteConnection, StringMatch, Timestamp,
};
use crate::path::{PathList, ProjectPath};
use crate::seqs;
use crate::terms;
use vstd::prelude::*;

verus! {

/// Hosts are the same where both are this machine, or both are remote and have the same identity;
/// nothing else about them counts.
pub proof fn hosts_are_the_same_by_identity(
    a: Option<RemoteConnection>,
    b: Option<RemoteConnection>,
)
    ensures
        model::same_host(a, b) <==> terms::same_place(a, b),
        model::same_options(a, b) <==> terms::reached_alike(a, b),
        terms::files_under(model::folder_identity(a), a),
{
}

/// A stored workspace is on the host of its location.
pub proof fn workspaces_are_where_their_location_is(w: RecentWorkspace)
    ensures
        w.host() == terms::host_of(w.location),
{
}

/// Two groups match where they are at the same place and have the same paths; they are equal where
/// they are reached with the same options and have the same paths.
pub proof fn groups_match_by_place_and_equal_by_options(a: ProjectGroupKey, b: ProjectGroupKey)
    ensures
        a.matched_by(&b) <==> terms::same_place(a.host, b.host) && terms::same_list(
            a.paths,
            b.paths,
        ),
        a.equal_to(&b) <==> terms::reached_alike(a.host, b.host) && terms::same_list(
            a.paths,
            b.paths,
        ),
{
    delegate_laws::lists_are_compared_by_components(a.paths, b.paths);
}

/// One time is not after another where it has fewer seconds, or as many and no more nanoseconds.
pub proof fn times_are_ordered_by_seconds_first(a: Timestamp, b: Timestamp)
    ensures
        a.not_after(b) <==> if a.seconds == b.seconds {
            a.nanoseconds <= b.nanoseconds
        } else {
            a.seconds < b.seconds
        },
{
}

/// A candidate is matched exactly where some match is of it.
pub proof fn candidates_are_matched_by_their_matches(hits: Seq<StringMatch>, id: usize)
    ensures
        model::matched(seqs::views(hits), id) <==> terms::found(hits, id),
{
    delegate_laws::lemma_found(hits, id);
}

/// Every row but a title can be selected; a draft is the row of a folder with a negative key.
pub proof fn titles_cannot_be_selected(row: EntryView)
    ensures
        row.selectable() <==> row is OpenFolder || row is ProjectGroup || row is Folder || row
            is RecentProject || row is NewFolder,
        row.is_draft() <==> row is Folder && row->folder_id.0 < 0,
{
}

/// Rows, matches, paths and open folders are looked at as they are.
pub proof fn values_are_seen_whole(
    hit: StringMatch,
    folder: OpenFolderEntry,
    path: ProjectPath,
    list: PathList,
    i: int,
)
    ensures
        hit@.candidate_id == hit.candidate_id,
        hit@.positions == hit.positions@,
        hit@.string == hit.string@,
        folder@.worktree_id == folder.worktree_id,
        folder@.name == folder.name@,
        folder@.path == folder.path@,
        folder@.branch is Some == folder.branch is Some,
        folder.branch is Some ==> folder@.branch->0 == folder.branch->0@,
        folder@.is_active == folder.is_active,
        folder@.connection_options == folder.connection_options,
        path@.raw == path.raw@,
        path@.text == path.text@,
        path@.compact == path.compact@,
        path@.compact_file_name is Some == path.compact_file_name is Some,
        path.compact_file_name is Some ==> path@.compact_file_name->0
            == path.compact_file_name->0@,
        path@.components.len() == path.components@.len(),
        0 <= i < path.components@.len() ==> path@.components[i] == path.components@[i]@,
        list@.paths.len() == list.paths@.len(),
        0 <= i < list.paths@.len() ==> list@.paths[i] == list.paths@[i]@,
        list@.ordered_paths.len() == list.ordered_paths@.len(),
        0 <= i < list.ordered_paths@.len() ==> list@.ordered_paths[i] == list.ordered_paths@[i]@,
{
}

/// A row of the picker shows its own text, index, match or key.
pub proof fn rows_are_seen_whole(entry: ProjectPickerEntry)
    ensures
        match entry {
            ProjectPickerEntry::Header(title) => entry@ is Header && entry@->Header_0 == title@,
            ProjectPickerEntry::OpenFolder { index, positions } => entry@ is OpenFolder
                && entry@->index == index && entry@->positions == positions@,
            ProjectPickerEntry::ProjectGroup(m) => entry@ is ProjectGroup
                && entry@->ProjectGroup_0 == m@,
            ProjectPickerEntry::Folder { folder_id, name } => entry@ is Folder
                && entry@->folder_id == folder_id && entry@->name == name@,
            ProjectPickerEntry::RecentProject(m) => entry@ is RecentProject
                && entry@->RecentProject_0 == m@,
            ProjectPickerEntry::NewFolder => entry@ is NewFolder,
        },
{
}

impl RecentProjectsDelegate {
    /// The selected row is the one at the selected index; none is selected behind the last.
    pub proof fn the_selection_is_a_row(&self)
        ensures
            self.selected() is Some <==> self.selected_index < self.filtered_entries@.len(),
            self.selected() is Some ==> self.selected()->0
                == self.filtered_entries@[self.selected_index as int]@,
            self.rows().len() == self.filtered_entries@.len(),
    {
    }

    /// An empty list is said to be one without recent projects only where there are neither
    /// workspaces nor open folders.
    pub proof fn empty_lists_say_why(&self)
        ensures
            self.empty_list_text() == "Recently opened projects will show up here"@
                <==> self.workspaces@.len() == 0 && self.open_folders@.len() == 0,
            self.empty_list_text() == "No matches"@ <==> self.workspaces@.len() > 0
                || self.open_folders@.len() > 0,
    {
        reveal_strlit("Recently opened projects will show up here");
        reveal_strlit("No matches");
        assert("No matches"@.len() != "Recently opened projects will show up here"@.len());
    }

    /// Pickers with the same projects agree in everything that is listed and in every setting; those
    /// with the same edit in everything about it.
    pub proof fn sameness_covers_every_field(&self, other: &RecentProjectsDelegate)
        ensures
            self.same_projects(other) ==> self.open_folders == other.open_folders
                && self.window_project_groups == other.window_project_groups && self.workspaces
                == other.workspaces && self.folders == other.folders && self.assignments
                == other.assignments && self.render_paths == other.render_paths
                && self.create_new_window == other.create_new_window && self.style == other.style,
            self.same_edit(other) ==> self.folder_edit == other.folder_edit
                && self.folder_edit_error == other.folder_edit_error
                && self.pending_assign_after_create == other.pending_assign_after_create,
            self.same_projects(other) && self.same_edit(other) && self.filtered_entries
                == other.filtered_entries && self.lists_everything == other.lists_everything
                && self.selected_index == other.selected_index
                && self.snap_selection_to_first_non_header_match
                == other.snap_selection_to_first_non_header_match ==> *self == *other,
    {
    }

    /// Between calls paths are rendered in the modal and nowhere else, only the modal edits a
    /// folder, and a project waits for a folder only while one is created.
    pub proof fn pickers_are_kept_in_order(&self)
        requires
            self.wf(),
        ensures
            self.render_paths <==> self.style is Modal,
            self.style is Popover ==> self.folder_edit is None,
            self.pending_assign_after_create is Some ==> self.folder_edit is Some
                && self.folder_edit->0 is Create,
    {
    }

    /// The picker creates a folder, or renames this one, exactly while that is its edit.
    pub proof fn edits_are_of_one_folder(&self, id: model::ProjectFolderId)
        ensures
            self.creating() <==> self.folder_edit is Some && self.folder_edit->0 is Create,
            self.editing(id) <==> self.folder_edit is Some && self.folder_edit->0 is Rename
                && self.folder_edit->0->Rename_0 == id,
    {
    }
}

} // verus!
