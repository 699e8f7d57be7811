//! What holds of folder edits: which rows they leave, and which names they take.
use crate::delegate::RecentProjectsDelegate;
use crate::folder_edit;
use crate::folder_edit::FolderCommit;
use crate::model::{
    EntryView, FolderEdit, PendingFolderAssign, ProjectFolderId, ProjectPickerStyle,
};
use crate::seqs;
use crate::text;
use crate::text_laws;
use vstd::prelude::*;

verus! {

/// The texts are as long, and each character is that of the other or the two are one ASCII letter
/// in both cases.
pub open spec fn alike(a: Seq<char>, b: Seq<char>) -> bool {
    &&& a.len() == b.len()
    &&& forall|i: int|
        0 <= i < a.len() ==> {
            ||| #[trigger] a[i] == b[i]
            ||| 'A' <= a[i] <= 'Z' && b[i] as int == a[i] as int + 32
            ||| 'A' <= b[i] <= 'Z' && a[i] as int == b[i] as int + 32
        }
}

/// The row is that of a folder that is not stored.
pub open spec fn is_unstored(row: EntryView) -> bool {
    row is Folder && row->folder_id.0 < 0
}

/// None of the rows creates a folder.
pub open spec fn none_creates(rows: Seq<EntryView>) -> bool {
    forall|j: int| 0 <= j < rows.len() ==> !(#[trigger] rows[j] is NewFolder)
}

/// None of the rows is that of a folder that is not stored.
pub open spec fn all_stored(rows: Seq<EntryView>) -> bool {
    forall|j: int| 0 <= j < rows.len() ==> !is_unstored(#[trigger] rows[j])
}

/// The draft that is selected is the first row of a folder that is not stored; there is none where
/// all are stored.
pub proof fn the_first_draft_is_selected(rows: Seq<EntryView>, i: int)
    requires
        rows.len() <= usize::MAX,
    ensures
        0 <= i < rows.len() && is_unstored(rows[i]) && all_stored(rows.take(i))
            ==> folder_edit::draft_index(rows) == Some(i as usize),
        all_stored(rows) ==> folder_edit::draft_index(rows) is None,
{
    let q = |e: EntryView| e.is_draft();
    if 0 <= i < rows.len() && is_unstored(rows[i]) && all_stored(rows.take(i)) {
        assert forall|j: int| 0 <= j < i implies !q(#[trigger] rows[j]) by {
            assert(rows.take(i)[j] == rows[j]);
        }
        assert(seqs::is_first(rows, q, i));
        seqs::lemma_first_index_is(rows, q, i);
    }
    if all_stored(rows) {
        assert forall|j: int| 0 <= j < rows.len() implies !q(#[trigger] rows[j]) by {
            assert(!is_unstored(rows[j]));
        }
        seqs::lemma_first_index_none(rows, q);
    }
}

/// The draft takes the place of the first row that creates a folder, and is selected there; all
/// other rows stay.
pub proof fn the_draft_replaces_the_row_that_creates(
    rows: Seq<EntryView>,
    selected: usize,
    i: int,
    j: int,
)
    requires
        rows.len() <= usize::MAX,
        0 <= i < rows.len(),
        rows[i] is NewFolder,
        none_creates(rows.take(i)),
        0 <= j < rows.len(),
    ensures
        folder_edit::with_draft(rows).len() == rows.len(),
        is_unstored(folder_edit::with_draft(rows)[i]),
        folder_edit::with_draft(rows)[i]->name.len() == 0,
        j != i ==> folder_edit::with_draft(rows)[j] == rows[j],
        folder_edit::draft_selection(rows, selected) == i,
{
    let p = |e: EntryView| e is NewFolder;
    assert forall|k: int| 0 <= k < i implies !p(#[trigger] rows[k]) by {
        assert(rows.take(i)[k] == rows[k]);
    }
    assert(seqs::is_first(rows, p, i));
    seqs::lemma_first_index_is(rows, p, i);
}

/// Without a row that creates a folder the draft comes last and is selected; where there is one
/// already, neither the rows nor the selection change.
pub proof fn the_draft_comes_last(rows: Seq<EntryView>, selected: usize)
    requires
        rows.len() <= usize::MAX,
        none_creates(rows),
    ensures
        all_stored(rows) ==> {
            let after = folder_edit::with_draft(rows);
            &&& after.len() == rows.len() + 1
            &&& after.drop_last() == rows
            &&& is_unstored(after.last())
            &&& after.last()->name.len() == 0
            &&& folder_edit::draft_selection(rows, selected) == rows.len()
        },
        !all_stored(rows) ==> folder_edit::with_draft(rows) == rows && folder_edit::draft_selection(
            rows,
            selected,
        ) == selected,
{
    let p = |e: EntryView| e is NewFolder;
    let q = |e: EntryView| e.is_draft();
    seqs::lemma_first_index_none(rows, p);
    if all_stored(rows) {
        assert forall|j: int| 0 <= j < rows.len() implies !q(#[trigger] rows[j]) by {
            assert(!is_unstored(rows[j]));
        }
        seqs::lemma_first_index_none(rows, q);
        assert(folder_edit::with_draft(rows).drop_last() =~= rows);
    } else {
        let j = choose|j: int| 0 <= j < rows.len() && is_unstored(#[trigger] rows[j]);
        assert(q(rows[j]));
        seqs::lemma_first_index_exists(rows, q, j);
    }
}

/// Giving up creating a folder leaves each row as often as it was there, but no draft; where the
/// modal lists everything and no row creates a folder, one is added behind the others.
pub proof fn giving_up_drops_the_draft(
    rows: Seq<EntryView>,
    style: ProjectPickerStyle,
    everything: bool,
    row: EntryView,
)
    ensures
        ({
            let after = folder_edit::without_draft(rows, style, everything).to_multiset();
            &&& is_unstored(row) ==> after.count(row) == 0
            &&& !is_unstored(row) && !(row is NewFolder) ==> after.count(row)
                == rows.to_multiset().count(row)
            &&& row is NewFolder && rows.contains(row) ==> after.count(row)
                == rows.to_multiset().count(row)
            &&& row is NewFolder && !rows.contains(row) ==> after.count(row) == (if everything
                && style is Modal {
                1nat
            } else {
                0nat
            })
        }),
{
    broadcast use vstd::seq_lib::group_to_multiset_ensures;

    let p = folder_edit::no_draft();
    let kept = rows.filter(p);
    let q = |e: EntryView| e is NewFolder;
    seqs::lemma_filter_count(rows, p, row);
    seqs::lemma_filter_count(rows, p, EntryView::NewFolder);
    if rows.contains(EntryView::NewFolder) {
        let i = choose|i: int| 0 <= i < rows.len() && rows[i] == EntryView::NewFolder;
        assert(p(rows[i]));
        rows.lemma_filter_contains(p, i);
        let k = choose|k: int| 0 <= k < kept.len() && kept[k] == EntryView::NewFolder;
        lemma_first_exists(kept, k);
    } else {
        assert forall|j: int| 0 <= j < kept.len() implies !q(#[trigger] kept[j]) by {
            rows.lemma_filter_contains_rev(p, kept[j]);
        }
        seqs::lemma_first_index_none(kept, q);
        rows.to_multiset_ensures();
        assert(rows.to_multiset().count(EntryView::NewFolder) == 0);
    }
}

proof fn lemma_first_exists(rows: Seq<EntryView>, i: int)
    requires
        0 <= i < rows.len(),
        rows[i] is NewFolder,
    ensures
        folder_edit::new_folder_index(rows) is Some,
    decreases i,
{
    let p = |e: EntryView| e is NewFolder;
    if exists|j: int| 0 <= j < i && #[trigger] rows[j] is NewFolder {
        let j = choose|j: int| 0 <= j < i && #[trigger] rows[j] is NewFolder;
        lemma_first_exists(rows, j);
    } else {
        assert(seqs::is_first(rows, p, i));
        seqs::lemma_first_index_is(rows, p, i);
    }
}

/// The rows that are left keep their order.
pub proof fn giving_up_keeps_the_order(
    rows: Seq<EntryView>,
    style: ProjectPickerStyle,
    everything: bool,
    i: int,
    j: int,
) -> (x: (int, int))
    requires
        0 <= i < j < rows.len(),
        !is_unstored(rows[i]),
        !is_unstored(rows[j]),
    ensures
        0 <= x.0 < x.1 < folder_edit::without_draft(rows, style, everything).len(),
        folder_edit::without_draft(rows, style, everything)[x.0] == rows[i],
        folder_edit::without_draft(rows, style, everything)[x.1] == rows[j],
{
    seqs::lemma_filter_keeps_order(rows, folder_edit::no_draft(), i, j)
}

impl RecentProjectsDelegate {
    /// A name is taken exactly where a folder has it up to the case of ASCII letters, and that
    /// folder is not the one that is being renamed.
    pub proof fn names_of_other_folders_are_taken(&self, name: Seq<char>, edit: FolderEdit)
        ensures
            self.name_taken(name, edit) <==> exists|f: int|
                0 <= f < self.folders@.len() && alike((#[trigger] self.folders@[f]).name@, name)
                    && edit != FolderEdit::Rename(self.folders@[f].folder_id),
    {
        assert forall|f: int| 0 <= f < self.folders@.len() implies self.takes_name(f, name, edit)
            == (alike((#[trigger] self.folders@[f]).name@, name) && edit != FolderEdit::Rename(
            self.folders@[f].folder_id,
        )) by {
            text_laws::case_is_that_of_ascii_letters(self.folders@[f].name@, name);
        }
        if self.name_taken(name, edit) {
            let f = choose|f: int| self.takes_name(f, name, edit);
            assert(alike(self.folders@[f].name@, name));
        }
        if exists|f: int|
            0 <= f < self.folders@.len() && alike((#[trigger] self.folders@[f]).name@, name) && edit
                != FolderEdit::Rename(self.folders@[f].folder_id) {
            let f = choose|f: int|
                0 <= f < self.folders@.len() && alike((#[trigger] self.folders@[f]).name@, name)
                    && edit != FolderEdit::Rename(self.folders@[f].folder_id);
            assert(self.takes_name(f, name, edit));
        }
    }

    /// A name that is taken is said to be: it stands in quotes in what is said.
    pub proof fn taken_names_are_quoted(name: Seq<char>)
        ensures
            ({
                let said = Self::taken_text(name);
                let n = name.len() as int;
                &&& said.len() == n + 32
                &&& said.take(15) == "A folder named "@
                &&& said[15] == '"'
                &&& said.subrange(16, 16 + n) == name
                &&& said[16 + n] == '"'
                &&& said.skip(17 + n) == " already exists"@
            }),
    {
        reveal_strlit("A folder named \"");
        reveal_strlit("\" already exists");
        reveal_strlit("A folder named ");
        reveal_strlit(" already exists");
        let said = Self::taken_text(name);
        let n = name.len() as int;
        assert(said.take(15) =~= "A folder named "@);
        assert(said.subrange(16, 16 + n) =~= name);
        assert(said.skip(17 + n) =~= " already exists"@);
    }

    /// A text of white space gives the edit up. Any other is taken without the white space around
    /// it: it is refused, and the edit goes on, where another folder has it up to the case of
    /// ASCII letters; else the edit ends, and what it was is stored under that name, with the
    /// project that waited for it.
    pub proof fn entered_names_are_trimmed_and_checked(
        &self,
        after: &RecentProjectsDelegate,
        entered: Seq<char>,
        r: FolderCommit,
    ) -> (x: (int, int))
        requires
            self.committed(after, Some(entered), r),
            self.folder_edit is Some,
        ensures
            0 <= x.0 <= x.1 <= entered.len(),
            forall|i: int|
                0 <= i < x.0 || x.1 <= i < entered.len() ==> text::white_space(
                    #[trigger] entered[i],
                ),
            x.0 < x.1 ==> !text::white_space(entered[x.0]) && !text::white_space(
                entered[x.1 - 1],
            ),
            r is Cancelled <==> x.0 == x.1,
            r is Rejected <==> x.0 < x.1 && exists|f: int|
                0 <= f < self.folders@.len() && alike(
                    (#[trigger] self.folders@[f]).name@,
                    entered.subrange(x.0, x.1),
                ) && self.folder_edit->0 != FolderEdit::Rename(self.folders@[f].folder_id),
            r is Cancelled || r is Rejected || r is Save,
            r is Rejected ==> after.folder_edit == self.folder_edit && after.folder_edit_error
                is Some && after.folder_edit_error->0@ == Self::taken_text(
                entered.subrange(x.0, x.1),
            ) && after.filtered_entries == self.filtered_entries
                && after.pending_assign_after_create == self.pending_assign_after_create,
            r is Cancelled || r is Save ==> after.folder_edit is None && after.folder_edit_error
                is None && after.pending_assign_after_create is None,
            r is Save ==> {
                &&& r->name@ == entered.subrange(x.0, x.1)
                &&& r->edit == self.folder_edit->0
                &&& r->assign == self.pending_assign_after_create
                &&& after.filtered_entries == self.filtered_entries
                &&& after.selected_index == self.selected_index
            },
            after.folders == self.folders,
            after.assignments == self.assignments,
            after.workspaces == self.workspaces,
    {
        let x = text_laws::trimming_drops_white_space(entered);
        self.names_of_other_folders_are_taken(entered.subrange(x.0, x.1), self.folder_edit->0);
        x
    }

    /// Without an edit nothing is taken; without an editor the edit is given up.
    pub proof fn nothing_is_stored_without_a_name(
        &self,
        after: &RecentProjectsDelegate,
        r: FolderCommit,
    )
        requires
            self.committed(after, None, r),
        ensures
            self.folder_edit is None ==> r is Idle && *after == *self,
            self.folder_edit is Some ==> r is Cancelled && after.folder_edit is None,
    {
    }

    /// The modal begins to create a folder, with nothing wrong yet, for the project that is to be
    /// put in it; the popover leaves everything as it is. Projects and folders stay.
    pub proof fn creating_begins_in_the_modal(
        &self,
        after: &RecentProjectsDelegate,
        pending: Option<PendingFolderAssign>,
    )
        requires
            self.creation_started(after, pending),
        ensures
            self.style is Modal ==> after.folder_edit == Some(FolderEdit::Create)
                && after.folder_edit_error is None && after.pending_assign_after_create == pending
                && after.rows() == folder_edit::with_draft(self.rows()) && after.selected_index
                == folder_edit::draft_selection(self.rows(), self.selected_index)
                && !after.snap_selection_to_first_non_header_match,
            self.style is Popover ==> *after == *self,
            after.folders == self.folders && after.assignments == self.assignments
                && after.workspaces == self.workspaces && after.open_folders == self.open_folders
                && after.window_project_groups == self.window_project_groups,
    {
    }

    /// The modal begins to rename a stored folder, with nothing wrong yet and no project waiting;
    /// otherwise everything stays as it is. The rows stay in any case.
    pub proof fn renaming_begins_in_the_modal(
        &self,
        after: &RecentProjectsDelegate,
        folder_id: ProjectFolderId,
    )
        requires
            self.renaming_started(after, folder_id),
        ensures
            self.style is Modal && folder_id.0 >= 0 ==> after.folder_edit == Some(
                FolderEdit::Rename(folder_id),
            ) && after.folder_edit_error is None && after.pending_assign_after_create is None
                && !after.snap_selection_to_first_non_header_match,
            self.style is Popover || folder_id.0 < 0 ==> *after == *self,
            after.filtered_entries == self.filtered_entries && after.selected_index
                == self.selected_index && after.folders == self.folders && after.assignments
                == self.assignments && after.workspaces == self.workspaces,
    {
    }

    /// Giving up an edit ends it. The rows change only where a folder was being created.
    pub proof fn giving_up_ends_the_edit(&self, after: &RecentProjectsDelegate)
        requires
            self.cancelled(after),
        ensures
            after.folder_edit is None,
            after.folder_edit_error is None,
            after.pending_assign_after_create is None,
            after.selected_index == self.selected_index,
            self.folder_edit != Some(FolderEdit::Create) ==> after.rows() == self.rows(),
            self.folder_edit == Some(FolderEdit::Create) ==> after.rows()
                == folder_edit::without_draft(self.rows(), self.style, self.lists_everything),
            after.folders == self.folders && after.assignments == self.assignments
                && after.workspaces == self.workspaces && after.open_folders == self.open_folders
                && after.window_project_groups == self.window_project_groups,
    {
    }
}

} // verus!
