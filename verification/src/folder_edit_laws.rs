//! What holds of folder edits: what giving one up undoes, and which rows it may add.
use crate::delegate::RecentProjectsDelegate;
use crate::folder_edit;
use crate::listing::MatchResults;
use crate::listing_laws;
use crate::model::{
    EntryView, FolderEdit, PendingFolderAssign, ProjectFolderId, ProjectPickerStyle, WorkspaceId,
};
use crate::seqs;
use crate::text;
use vstd::prelude::*;

verus! {

/// The keys of stored folders are not negative.
pub open spec fn stored_keys(d: &RecentProjectsDelegate) -> bool {
    forall|f: int| 0 <= f < d.folders@.len() ==> (#[trigger] d.folders@[f]).folder_id.0 >= 0
}

proof fn lemma_draft_dropped(front: Seq<EntryView>, back: Seq<EntryView>)
    requires
        forall|i: int| 0 <= i < front.len() ==> !(#[trigger] front[i]).is_draft(),
        forall|i: int| 0 <= i < back.len() ==> !(#[trigger] back[i]).is_draft(),
    ensures
        (front + seq![folder_edit::draft_row()] + back).filter(folder_edit::no_draft()) == front
            + back,
{
    let q = folder_edit::no_draft();
    let draft = seq![folder_edit::draft_row()];
    Seq::filter_distributes_over_add(front + draft, back, q);
    Seq::filter_distributes_over_add(front, draft, q);
    listing_laws::lemma_filter_all(front, q);
    listing_laws::lemma_filter_all(back, q);
    seqs::lemma_filter_none(draft, q);
    assert(front + Seq::<EntryView>::empty() =~= front);
}

impl RecentProjectsDelegate {
    /// No two folders have names that agree up to the case of ASCII letters.
    pub open spec fn distinct_names(names: Seq<Seq<char>>) -> bool {
        forall|i: int, j: int|
            0 <= i < j < names.len() ==> !text::same_ignoring_ascii_case(
                #[trigger] names[i],
                #[trigger] names[j],
            )
    }

    /// A name that is not taken keeps the names of the folders distinct: added, for a new folder;
    /// in the place of the old name, for a renamed one.
    pub proof fn saving_keeps_names_distinct(&self, name: Seq<char>, edit: FolderEdit, f: int)
        requires
            Self::distinct_names(Seq::new(self.folders@.len(), |i: int| self.folders@[i].name@)),
            !self.name_taken(name, edit),
            edit matches FolderEdit::Rename(folder_id) ==> 0 <= f < self.folders@.len()
                && forall|i: int|
                0 <= i < self.folders@.len() && (#[trigger] self.folders@[i]).folder_id
                    == folder_id ==> i == f,
        ensures
            ({
                let names = Seq::new(self.folders@.len(), |i: int| self.folders@[i].name@);
                match edit {
                    FolderEdit::Create => Self::distinct_names(names.push(name)),
                    FolderEdit::Rename(_) => Self::distinct_names(names.update(f, name)),
                }
            }),
    {
        let names = Seq::new(self.folders@.len(), |i: int| self.folders@[i].name@);
        assert forall|i: int| 0 <= i < self.folders@.len() && (edit is Rename ==> i != f) implies
            !text::same_ignoring_ascii_case(#[trigger] names[i], name)
            && !text::same_ignoring_ascii_case(name, names[i]) by {
            assert(!self.takes_name(i, name, edit));
            if text::same_ignoring_ascii_case(name, names[i]) {
                assert(text::same_ignoring_ascii_case(names[i], name));
            }
        }
    }

    /// Giving up the renaming of a folder undoes its beginning: projects, rows and selection are
    /// those from before, and no folder is edited.
    pub proof fn cancelling_undoes_renaming(
        before: &RecentProjectsDelegate,
        during: &RecentProjectsDelegate,
        after: &RecentProjectsDelegate,
        folder_id: ProjectFolderId,
    )
        requires
            before.renameable(folder_id),
            before.renaming_started(during, folder_id),
            during.cancelled(after),
        ensures
            after.same_projects(before),
            after.rows() == before.rows(),
            after.selected_index == before.selected_index,
            after.folder_edit is None,
            after.folder_edit_error is None,
            after.pending_assign_after_create is None,
    {
    }

    /// Giving up the creation of a folder undoes its beginning: the rows are those from before.
    /// They held no draft, and a row that creates a folder just where everything was listed, as
    /// the last one.
    pub proof fn cancelling_undoes_creating(rows: Seq<EntryView>, everything: bool)
        requires
            rows.len() <= usize::MAX,
            everything == (rows.len() > 0 && rows.last() is NewFolder),
            forall|i: int| 0 <= i < rows.len() - 1 ==> !(#[trigger] rows[i] is NewFolder),
            forall|i: int| 0 <= i < rows.len() ==> !(#[trigger] rows[i]).is_draft(),
        ensures
            folder_edit::without_draft(
                folder_edit::with_draft(rows),
                ProjectPickerStyle::Modal,
                everything,
            ) == rows,
    {
        let p = |e: EntryView| e is NewFolder;
        let d = |e: EntryView| e.is_draft();
        let q = folder_edit::no_draft();
        let draft = folder_edit::draft_row();
        let kept: Seq<EntryView> = if everything {
            rows.drop_last()
        } else {
            rows
        };
        assert forall|i: int| 0 <= i < kept.len() implies q(#[trigger] kept[i]) && !p(kept[i]) by {
            assert(kept[i] == rows[i]);
        }
        if everything {
            let n = rows.len() - 1;
            assert(seqs::is_first(rows, p, n)) by {
                assert(p(rows[n]));
            }
            seqs::lemma_first_index_is(rows, p, n);
            assert(folder_edit::with_draft(rows) =~= kept.push(draft));
        } else {
            seqs::lemma_first_index_none(rows, p);
            seqs::lemma_first_index_none(rows, d);
            assert(folder_edit::with_draft(rows) == kept.push(draft));
        }
        kept.lemma_filter_push(draft, q);
        listing_laws::lemma_filter_all(kept, q);
        assert(kept.push(draft).filter(q) == kept);
        seqs::lemma_first_index_none(kept, p);
        if everything {
            assert(kept.push(EntryView::NewFolder) =~= rows);
        }
    }

    /// Whatever is listed in the modal, beginning to create a folder and giving it up leaves the
    /// listing as it was.
    pub proof fn cancelling_restores_the_listing(
        &self,
        empty: bool,
        results: &MatchResults,
        current: Option<WorkspaceId>,
    )
        requires
            self.style == ProjectPickerStyle::Modal,
            !self.creating(),
            stored_keys(self),
            self.listed(empty, results, current).len() <= usize::MAX,
        ensures
            folder_edit::without_draft(
                folder_edit::with_draft(self.listed(empty, results, current)),
                ProjectPickerStyle::Modal,
                empty,
            ) == self.listed(empty, results, current),
    {
        let rows = self.listed(empty, results, current);
        self.new_folder_row_comes_last(empty, results, current);
        self.stored_folders_are_no_drafts(empty, results, current);
        assert forall|i: int| 0 <= i < rows.len() && #[trigger] rows[i] is NewFolder implies empty
            && i == rows.len() - 1 by {
            assert(rows[i] == EntryView::NewFolder);
        }
        Self::cancelling_undoes_creating(rows, empty);
    }

    /// A picker whose rows are those that were listed last has the same projects and rows again
    /// once a folder was begun and given up, and edits no folder.
    pub proof fn cancelling_restores_the_picker(
        before: &RecentProjectsDelegate,
        during: &RecentProjectsDelegate,
        after: &RecentProjectsDelegate,
        pending_assign: Option<PendingFolderAssign>,
        results: &MatchResults,
        current: Option<WorkspaceId>,
    )
        requires
            before.style == ProjectPickerStyle::Modal,
            !before.creating(),
            stored_keys(before),
            before.rows() == before.listed(before.lists_everything, results, current),
            before.creation_started(during, pending_assign),
            during.cancelled(after),
        ensures
            after.same_projects(before),
            after.rows() == before.rows(),
            after.lists_everything == before.lists_everything,
            after.folder_edit is None,
            after.folder_edit_error is None,
            after.pending_assign_after_create is None,
    {
        assert(before.rows().len() == before.filtered_entries.len());
        before.cancelling_restores_the_listing(before.lists_everything, results, current);
    }

    /// The listings with and without a folder being created: what comes before the draft, and
    /// what comes after.
    proof fn lemma_around_draft(
        &self,
        during: &RecentProjectsDelegate,
        empty: bool,
        results: &MatchResults,
        current: Option<WorkspaceId>,
    ) -> (r: (Seq<EntryView>, Seq<EntryView>))
        requires
            !self.creating(),
            during.creating(),
            during.same_projects(self),
            stored_keys(self),
        ensures
            during.listed(empty, results, current) == r.0 + seq![folder_edit::draft_row()] + r.1,
            self.listed(empty, results, current) == r.0 + r.1 + self.new_folder_section(empty),
            forall|i: int|
                0 <= i < r.0.len() ==> !(#[trigger] r.0[i]).is_draft() && !(r.0[i] is NewFolder),
            forall|i: int|
                0 <= i < r.1.len() ==> !(#[trigger] r.1[i]).is_draft() && !(r.1[i] is NewFolder),
    {
        let front = self.current_folders_section(empty, seqs::views(results.open_folders@))
            + self.this_window_section(empty, seqs::views(results.project_groups@))
            + self.folder_sections(self.folders@.len(), empty, results);
        let back = self.ungrouped_section(empty, results, current);
        let all = self.listed(empty, results, current);
        let end = self.new_folder_section(empty);
        during.lemma_same_sections(self, empty, results, current);
        self.stored_folders_are_no_drafts(empty, results, current);
        self.new_folder_row_comes_last(empty, results, current);
        assert(all =~= front + back + end);
        assert(during.new_folder_section(empty) =~= Seq::empty());
        assert(during.listed(empty, results, current) =~= front + seq![folder_edit::draft_row()]
            + back);
        assert forall|i: int| 0 <= i < front.len() implies !(#[trigger] front[i]).is_draft() && !(
        front[i] is NewFolder) by {
            assert(front[i] == all[i]);
            if front[i] is NewFolder {
                assert(all[i] == EntryView::NewFolder);
            }
        }
        assert forall|i: int| 0 <= i < back.len() implies !(#[trigger] back[i]).is_draft() && !(
        back[i] is NewFolder) by {
            assert(back[i] == all[front.len() + i]);
            if back[i] is NewFolder {
                assert(all[front.len() + i] == EntryView::NewFolder);
            }
        }
        (front, back)
    }

    /// Where the rows are listed again while a folder is being created, giving it up leaves what
    /// would have been listed without it.
    pub proof fn cancelling_restores_a_new_listing(
        &self,
        during: &RecentProjectsDelegate,
        empty: bool,
        results: &MatchResults,
        current: Option<WorkspaceId>,
    )
        requires
            self.style == ProjectPickerStyle::Modal,
            !self.creating(),
            during.creating(),
            during.same_projects(self),
            stored_keys(self),
        ensures
            folder_edit::without_draft(
                during.listed(empty, results, current),
                ProjectPickerStyle::Modal,
                empty,
            ) == self.listed(empty, results, current),
    {
        let (front, back) = self.lemma_around_draft(during, empty, results, current);
        let p = |e: EntryView| e is NewFolder;
        let kept = front + back;
        lemma_draft_dropped(front, back);
        assert forall|i: int| 0 <= i < kept.len() implies !p(#[trigger] kept[i]) by {
            if i < front.len() {
                assert(kept[i] == front[i]);
            } else {
                assert(kept[i] == back[i - front.len()]);
            }
        }
        seqs::lemma_first_index_none(kept, p);
        if empty {
            assert(kept.push(EntryView::NewFolder) =~= kept + self.new_folder_section(empty));
        } else {
            assert(kept =~= kept + self.new_folder_section(empty));
        }
    }

    /// While a folder is being created, exactly one draft is listed.
    pub proof fn one_draft_is_listed(
        &self,
        empty: bool,
        results: &MatchResults,
        current: Option<WorkspaceId>,
    )
        requires
            self.creating(),
            stored_keys(self),
        ensures
            self.listed(empty, results, current).filter(|e: EntryView| e.is_draft()) == seq![
                folder_edit::draft_row(),
            ],
    {
        let idle = RecentProjectsDelegate { folder_edit: None, ..*self };
        let (front, back) = idle.lemma_around_draft(self, empty, results, current);
        let draft = seq![folder_edit::draft_row()];
        let p = |e: EntryView| e.is_draft();
        Seq::filter_distributes_over_add(front + draft, back, p);
        Seq::filter_distributes_over_add(front, draft, p);
        seqs::lemma_filter_none(front, p);
        seqs::lemma_filter_none(back, p);
        listing_laws::lemma_filter_all(draft, p);
        assert((front + draft + back).filter(p) =~= draft);
    }

    proof fn lemma_folder_sections_no_draft(&self, n: nat, empty: bool, results: &MatchResults)
        requires
            n <= self.folders@.len(),
            stored_keys(self),
        ensures
            forall|i: int|
                0 <= i < self.folder_sections(n, empty, results).len()
                    ==> !(#[trigger] self.folder_sections(n, empty, results)[i]).is_draft(),
        decreases n,
    {
        if n > 0 {
            self.lemma_folder_sections_no_draft((n - 1) as nat, empty, results);
            let a = self.folder_sections((n - 1) as nat, empty, results);
            let b = self.folder_section(n - 1, empty, results);
            assert(self.folders@[n - 1].folder_id.0 >= 0);
            assert forall|i: int| 0 <= i < (a + b).len() implies !(
            #[trigger] (a + b)[i]).is_draft() by {
                if i < a.len() {
                    assert((a + b)[i] == a[i]);
                } else {
                    assert((a + b)[i] == b[i - a.len()]);
                }
            }
        }
    }

    /// Unless a folder is being created, no draft is listed: stored folders have keys that are
    /// not negative.
    pub proof fn stored_folders_are_no_drafts(
        &self,
        empty: bool,
        results: &MatchResults,
        current: Option<WorkspaceId>,
    )
        requires
            !self.creating(),
            stored_keys(self),
        ensures
            forall|i: int|
                0 <= i < self.listed(empty, results, current).len() ==> !(#[trigger] self.listed(
                    empty,
                    results,
                    current,
                )[i]).is_draft(),
    {
        let a = self.current_folders_section(empty, seqs::views(results.open_folders@));
        let b = self.this_window_section(empty, seqs::views(results.project_groups@));
        let c = self.folder_sections(self.folders@.len(), empty, results);
        let d = self.draft_section();
        let e = self.ungrouped_section(empty, results, current);
        let f = self.new_folder_section(empty);
        self.lemma_folder_sections_no_draft(self.folders@.len(), empty, results);
        let all = self.listed(empty, results, current);
        let ab: int = (a.len() + b.len()) as int;
        let abc: int = ab + c.len();
        let abcde: int = abc + e.len();
        assert forall|i: int| 0 <= i < all.len() implies !(#[trigger] all[i]).is_draft() by {
            if i < a.len() {
                assert(all[i] == a[i]);
            } else if i < ab {
                assert(all[i] == b[i - a.len()]);
            } else if i < abc {
                assert(all[i] == c[i - ab]);
            } else if i < abcde {
                assert(all[i] == e[i - abc]);
            } else {
                assert(all[i] == f[i - abcde]);
            }
        }
    }
}

} // verus!
