//! Creating, renaming and deleting the picker's folders.
use crate::delegate::RecentProjectsDelegate;
use crate::model;
use crate::model::{
    EntryView, FolderEdit, PendingFolderAssign, ProjectFolder, ProjectFolderAssignment,
    ProjectFolderId, ProjectPickerEntry, ProjectPickerStyle,
};
use crate::seqs;
use crate::text;
use vstd::prelude::*;

verus! {

/// The row of a folder that is being created.
pub open spec fn draft_row() -> EntryView {
    EntryView::Folder { folder_id: ProjectFolderId((-1) as i64), name: Seq::empty() }
}

fn new_draft_row() -> (r: ProjectPickerEntry)
    ensures
        r@ == draft_row(),
{
    ProjectPickerEntry::Folder { folder_id: ProjectFolderId(-1), name: String::new() }
}

/// Where the row that creates a folder stands.
pub open spec fn new_folder_index(rows: Seq<EntryView>) -> Option<usize> {
    seqs::first_index(rows, |e: EntryView| e is NewFolder)
}

/// Where the row of a folder that is being created stands.
pub open spec fn draft_index(rows: Seq<EntryView>) -> Option<usize> {
    seqs::first_index(rows, |e: EntryView| e.is_draft())
}

/// The rows once a folder is being created: the draft takes the place of the row that creates a
/// folder, or comes last, unless a draft is there already.
pub open spec fn with_draft(rows: Seq<EntryView>) -> Seq<EntryView> {
    match new_folder_index(rows) {
        Some(i) => rows.update(i as int, draft_row()),
        None => if draft_index(rows) is None {
            rows.push(draft_row())
        } else {
            rows
        },
    }
}

/// The selection once a folder is being created: the new draft.
pub open spec fn draft_selection(rows: Seq<EntryView>, selected: usize) -> usize {
    match new_folder_index(rows) {
        Some(i) => i,
        None => if draft_index(rows) is None {
            rows.len() as usize
        } else {
            selected
        },
    }
}

pub open spec fn no_draft() -> spec_fn(EntryView) -> bool {
    |e: EntryView| !e.is_draft()
}

/// The rows once creating a folder was given up: no draft, and, where the modal lists
/// everything, a row that creates a folder.
pub open spec fn without_draft(
    rows: Seq<EntryView>,
    style: ProjectPickerStyle,
    everything: bool,
) -> Seq<EntryView> {
    let kept = rows.filter(no_draft());
    if everything && style == ProjectPickerStyle::Modal && new_folder_index(kept) is None {
        kept.push(EntryView::NewFolder)
    } else {
        kept
    }
}

fn find_new_folder(entries: &Vec<ProjectPickerEntry>) -> (r: Option<usize>)
    ensures
        r == new_folder_index(seqs::views(entries@)),
        r matches Some(i) ==> i < entries@.len(),
{
    let ghost rows = seqs::views(entries@);
    let ghost p = |e: EntryView| e is NewFolder;
    let mut i: usize = 0;
    while i < entries.len()
        invariant
            i <= entries@.len(),
            rows == seqs::views(entries@),
            p == (|e: EntryView| e is NewFolder),
            forall|j: int| 0 <= j < i ==> !p(#[trigger] rows[j]),
        decreases entries@.len() - i,
    {
        if let ProjectPickerEntry::NewFolder = &entries[i] {
            proof {
                assert(p(rows[i as int]));
                seqs::lemma_first_index_is(rows, p, i as int);
            }
            return Some(i);
        }
        assert(!p(rows[i as int]));
        i = i + 1;
    }
    proof {
        seqs::lemma_first_index_none(rows, p);
    }
    None
}

fn find_draft(entries: &Vec<ProjectPickerEntry>) -> (r: Option<usize>)
    ensures
        r == draft_index(seqs::views(entries@)),
        r matches Some(i) ==> i < entries@.len(),
{
    let ghost rows = seqs::views(entries@);
    let ghost p = |e: EntryView| e.is_draft();
    let mut i: usize = 0;
    while i < entries.len()
        invariant
            i <= entries@.len(),
            rows == seqs::views(entries@),
            p == (|e: EntryView| e.is_draft()),
            forall|j: int| 0 <= j < i ==> !p(#[trigger] rows[j]),
        decreases entries@.len() - i,
    {
        if model::is_draft_entry(&entries[i]) {
            proof {
                assert(p(rows[i as int]));
                seqs::lemma_first_index_is(rows, p, i as int);
            }
            return Some(i);
        }
        assert(!p(rows[i as int]));
        i = i + 1;
    }
    proof {
        seqs::lemma_first_index_none(rows, p);
    }
    None
}

fn remove_drafts(entries: &mut Vec<ProjectPickerEntry>)
    ensures
        seqs::views(final(entries)@) == seqs::views(old(entries)@).filter(no_draft()),
{
    let ghost all = seqs::views(entries@);
    let ghost p = no_draft();
    let mut i: usize = 0;
    let ghost mut seen: int = 0;
    proof {
        reveal(Seq::filter);
        assert(all.take(0).filter(p) =~= Seq::empty());
        assert(all =~= all.take(0).filter(p) + all.skip(0));
    }
    while i < entries.len()
        invariant
            0 <= seen <= all.len(),
            p == no_draft(),
            i == all.take(seen).filter(p).len(),
            i <= entries@.len(),
            seqs::views(entries@) == all.take(seen).filter(p) + all.skip(seen),
        decreases entries@.len() - i,
    {
        let ghost rows = seqs::views(entries@);
        proof {
            assert(rows.len() == i + (all.len() - seen));
            assert(rows[i as int] == all[seen]);
            assert(rows[i as int] == entries@[i as int]@);
            assert(all.take(seen + 1) =~= all.take(seen).push(all[seen]));
            all.take(seen).lemma_filter_push(all[seen], p);
        }
        if model::is_draft_entry(&entries[i]) {
            let _ = entries.remove(i);
            proof {
                assert(seqs::views(entries@) =~= rows.remove(i as int));
                assert(rows.remove(i as int) =~= all.take(seen + 1).filter(p) + all.skip(seen + 1));
                seen = seen + 1;
            }
        } else {
            i = i + 1;
            proof {
                assert(rows =~= all.take(seen + 1).filter(p) + all.skip(seen + 1));
                seen = seen + 1;
            }
        }
    }
    proof {
        let rows = seqs::views(entries@);
        assert(rows.len() == i);
        assert(all.skip(seen).len() == 0);
        assert(all.take(seen) =~= all);
        assert(rows =~= all.filter(p));
    }
}

/// The project that is to be put in a folder once the folder was to be stored: the one that
/// waited for it, unless storing the folder failed.
pub fn assignment_after_save(
    saved: bool,
    assign: Option<PendingFolderAssign>,
) -> (r: Option<PendingFolderAssign>)
    ensures
        r == (if saved {
            assign
        } else {
            None
        }),
{
    if saved {
        assign
    } else {
        None
    }
}

/// What is to be done with a folder's name that was entered.
pub enum FolderCommit {
    /// No folder is being edited.
    Idle,
    /// The name is blank: the edit was given up.
    Cancelled,
    /// Another folder has the name: the edit goes on.
    Rejected,
    /// The folder is to be stored under this name; the project is to be put in it.
    Save { edit: FolderEdit, name: String, assign: Option<PendingFolderAssign> },
}

impl RecentProjectsDelegate {
    /// What beginning to create a folder leaves: the popover creates none.
    pub open spec fn creation_started(
        &self,
        after: &RecentProjectsDelegate,
        pending_assign: Option<PendingFolderAssign>,
    ) -> bool {
        if self.style == ProjectPickerStyle::Modal {
            &&& after.same_projects(self)
            &&& after.folder_edit == Some(FolderEdit::Create)
            &&& after.folder_edit_error is None
            &&& after.pending_assign_after_create == pending_assign
            &&& !after.snap_selection_to_first_non_header_match
            &&& after.rows() == with_draft(self.rows())
            &&& after.lists_everything == self.lists_everything
            &&& after.selected_index == draft_selection(self.rows(), self.selected_index)
        } else {
            *after == *self
        }
    }

    /// Begins to create a folder, into which `pending_assign` is to be put. Says whether the
    /// name editor is to be emptied and focused.
    pub fn start_create_folder(&mut self, pending_assign: Option<PendingFolderAssign>) -> (opened:
        bool)
        ensures
            old(self).wf() ==> final(self).wf(),
            opened == (old(self).style == ProjectPickerStyle::Modal),
            old(self).creation_started(final(self), pending_assign),
    {
        if self.style != ProjectPickerStyle::Modal {
            return false;
        }
        let ghost before = self.rows();
        self.pending_assign_after_create = pending_assign;
        self.folder_edit = Some(FolderEdit::Create);
        self.folder_edit_error = None;
        self.snap_selection_to_first_non_header_match = false;
        match find_new_folder(&self.filtered_entries) {
            Some(ix) => {
                let row: ProjectPickerEntry = new_draft_row();
                self.filtered_entries[ix] = row;
                self.selected_index = ix;
                assert(self.rows() =~= before.update(ix as int, draft_row()));
            },
            None => {
                if find_draft(&self.filtered_entries).is_none() {
                    let row: ProjectPickerEntry = new_draft_row();
                    proof {
                        seqs::lemma_views_push(self.filtered_entries@, row);
                    }
                    self.filtered_entries.push(row);
                    self.selected_index = self.filtered_entries.len() - 1;
                }
            },
        }
        true
    }

    /// The folder can be renamed here: the modal renames stored folders.
    pub open spec fn renameable(&self, folder_id: ProjectFolderId) -> bool {
        self.style == ProjectPickerStyle::Modal && folder_id.0 >= 0
    }

    /// What beginning to rename a folder leaves.
    pub open spec fn renaming_started(
        &self,
        after: &RecentProjectsDelegate,
        folder_id: ProjectFolderId,
    ) -> bool {
        if self.renameable(folder_id) {
            *after == (RecentProjectsDelegate {
                pending_assign_after_create: None,
                folder_edit: Some(FolderEdit::Rename(folder_id)),
                folder_edit_error: None,
                snap_selection_to_first_non_header_match: false,
                ..*self
            })
        } else {
            *after == *self
        }
    }

    /// Begins to rename a folder. Says whether the name editor is to be filled with the folder's
    /// name and focused.
    pub fn start_rename_folder(&mut self, folder_id: ProjectFolderId) -> (opened: bool)
        ensures
            old(self).wf() ==> final(self).wf(),
            opened == old(self).renameable(folder_id),
            old(self).renaming_started(final(self), folder_id),
    {
        if self.style != ProjectPickerStyle::Modal || folder_id.0 < 0 {
            return false;
        }
        self.pending_assign_after_create = None;
        self.folder_edit = Some(FolderEdit::Rename(folder_id));
        self.folder_edit_error = None;
        self.snap_selection_to_first_non_header_match = false;
        true
    }

    /// What giving up an edit leaves.
    pub open spec fn cancelled(&self, after: &RecentProjectsDelegate) -> bool {
        &&& after.same_projects(self)
        &&& after.folder_edit is None
        &&& after.folder_edit_error is None
        &&& after.pending_assign_after_create is None
        &&& after.rows() == (if self.creating() {
            without_draft(self.rows(), self.style, self.lists_everything)
        } else {
            self.rows()
        })
        &&& after.lists_everything == self.lists_everything
        &&& after.selected_index == self.selected_index
        &&& after.snap_selection_to_first_non_header_match
            == self.snap_selection_to_first_non_header_match
    }

    /// Gives up creating or renaming a folder; the picker takes the focus back.
    pub fn cancel_folder_edit(&mut self)
        ensures
            old(self).wf() ==> final(self).wf(),
            old(self).cancelled(final(self)),
    {
        let was_creating: bool = self.is_creating_folder();
        self.folder_edit = None;
        self.folder_edit_error = None;
        self.pending_assign_after_create = None;
        if was_creating {
            remove_drafts(&mut self.filtered_entries);
            if self.lists_everything && self.style == ProjectPickerStyle::Modal && find_new_folder(
                &self.filtered_entries,
            ).is_none() {
                proof {
                    seqs::lemma_views_push(self.filtered_entries@, ProjectPickerEntry::NewFolder);
                }
                self.filtered_entries.push(ProjectPickerEntry::NewFolder);
            }
        }
    }

    /// Folder `f` has the name already, and is not the folder that is being renamed.
    pub open spec fn takes_name(&self, f: int, name: Seq<char>, edit: FolderEdit) -> bool {
        &&& 0 <= f < self.folders@.len()
        &&& text::same_ignoring_ascii_case(self.folders@[f].name@, name)
        &&& match edit {
            FolderEdit::Create => true,
            FolderEdit::Rename(folder_id) => self.folders@[f].folder_id != folder_id,
        }
    }

    /// Another folder has the name already.
    pub open spec fn name_taken(&self, name: Seq<char>, edit: FolderEdit) -> bool {
        exists|f: int| self.takes_name(f, name, edit)
    }

    fn is_name_taken(&self, name: &String, edit: FolderEdit) -> (r: bool)
        ensures
            r == self.name_taken(name@, edit),
    {
        let mut f: usize = 0;
        while f < self.folders.len()
            invariant
                f <= self.folders@.len(),
                forall|j: int| 0 <= j < f ==> !#[trigger] self.takes_name(j, name@, edit),
            decreases self.folders@.len() - f,
        {
            let other: bool = match edit {
                FolderEdit::Create => true,
                FolderEdit::Rename(folder_id) => self.folders[f].folder_id != folder_id,
            };
            if text::eq_ignore_ascii_case(self.folders[f].name.as_str(), name.as_str()) && other {
                assert(self.takes_name(f as int, name@, edit));
                return true;
            }
            f = f + 1;
        }
        false
    }

    /// What is said of a name that another folder has.
    pub open spec fn taken_text(name: Seq<char>) -> Seq<char> {
        "A folder named \""@ + name + "\" already exists"@
    }

    /// What taking the text of the name editor as the folder's name leaves, and asks for.
    pub open spec fn committed(
        &self,
        after: &RecentProjectsDelegate,
        editor_text: Option<Seq<char>>,
        r: FolderCommit,
    ) -> bool {
        let name = match editor_text {
            Some(t) => text::trimmed(t),
            None => Seq::empty(),
        };
        match self.folder_edit {
            None => r is Idle && *after == *self,
            Some(edit) => if name.len() == 0 {
                r is Cancelled && self.cancelled(after)
            } else if self.name_taken(name, edit) {
                &&& r is Rejected
                &&& after.folder_edit_error matches Some(e) && e@ == Self::taken_text(name)
                &&& *after == (RecentProjectsDelegate {
                    folder_edit_error: after.folder_edit_error,
                    ..*self
                })
            } else {
                &&& r matches FolderCommit::Save { edit: e, name: n, assign } && e == edit && n@
                    == name && assign == self.pending_assign_after_create
                &&& *after == (RecentProjectsDelegate {
                    folder_edit: None,
                    folder_edit_error: None,
                    pending_assign_after_create: None,
                    ..*self
                })
            },
        }
    }

    /// Takes the text of the name editor, where there is an editor, as the folder's name.
    pub fn commit_folder_edit(&mut self, editor_text: Option<&String>) -> (r: FolderCommit)
        ensures
            old(self).wf() ==> final(self).wf(),
            old(self).committed(
                final(self),
                match editor_text {
                    Some(t) => Some(t@),
                    None => None,
                },
                r,
            ),
    {
        let edit: FolderEdit = match self.folder_edit {
            Some(edit) => edit,
            None => {
                return FolderCommit::Idle;
            },
        };
        let name: String = match editor_text {
            Some(t) => text::trim(t.as_str()),
            None => String::new(),
        };
        if name.as_str().is_empty() {
            assert(name@ =~= Seq::empty());
            self.cancel_folder_edit();
            return FolderCommit::Cancelled;
        }
        assert(editor_text is None ==> name@.len() == 0);
        if self.is_name_taken(&name, edit) {
            let error: String = "A folder named \"".to_owned().concat(name.as_str()).concat(
                "\" already exists",
            );
            self.folder_edit_error = Some(error);
            return FolderCommit::Rejected;
        }
        let assign: Option<PendingFolderAssign> = self.pending_assign_after_create.take();
        self.folder_edit = None;
        self.folder_edit_error = None;
        FolderCommit::Save { edit, name, assign }
    }

    /// Takes in what the database holds after a folder was stored, or could not be.
    pub fn folder_saved(
        &mut self,
        saved: bool,
        folders: Vec<ProjectFolder>,
        assignments: Vec<ProjectFolderAssignment>,
    )
        ensures
            old(self).wf() ==> final(self).wf(),
            *final(self) == (RecentProjectsDelegate {
                folders,
                assignments,
                snap_selection_to_first_non_header_match: false,
                folder_edit_error: final(self).folder_edit_error,
                ..*old(self)
            }),
            saved ==> final(self).folder_edit_error == old(self).folder_edit_error,
            !saved ==> (final(self).folder_edit_error matches Some(e) && e@
                == "Could not save folder"@),
    {
        if !saved {
            self.folder_edit_error = Some("Could not save folder".to_owned());
        }
        self.folders_changed(folders, assignments);
    }

    /// Takes in what the database holds after a folder or an assignment changed; the selection
    /// stays.
    pub fn folders_changed(
        &mut self,
        folders: Vec<ProjectFolder>,
        assignments: Vec<ProjectFolderAssignment>,
    )
        ensures
            old(self).wf() ==> final(self).wf(),
            *final(self) == (RecentProjectsDelegate {
                folders,
                assignments,
                snap_selection_to_first_non_header_match: false,
                ..*old(self)
            }),
    {
        self.set_folders(folders, assignments);
        self.snap_selection_to_first_non_header_match = false;
    }

    /// Deletes a folder: says whether it is to be deleted from the database. Deleting the draft
    /// gives up creating it.
    pub fn delete_user_folder(&mut self, folder_id: ProjectFolderId) -> (stored: bool)
        ensures
            old(self).wf() ==> final(self).wf(),
            stored == (folder_id.0 >= 0),
            stored ==> *final(self) == *old(self),
            !stored ==> old(self).cancelled(final(self)),
    {
        if folder_id.0 < 0 {
            self.cancel_folder_edit();
            return false;
        }
        true
    }

    /// Selects the row of the folder that is being created, where it is listed.
    pub fn select_draft(&mut self) -> (r: Option<usize>)
        ensures
            r == draft_index(old(self).rows()),
            *final(self) == (RecentProjectsDelegate {
                selected_index: match r {
                    Some(ix) => ix,
                    None => old(self).selected_index,
                },
                ..*old(self)
            }),
    {
        let r: Option<usize> = find_draft(&self.filtered_entries);
        if let Some(ix) = r {
            self.selected_index = ix;
        }
        r
    }
}

} // verus!
