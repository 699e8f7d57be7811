//! Which projects are listed, and under which title or folder.
use crate::delegate::RecentProjectsDelegate;
use crate::delegate_laws;
use crate::listing;
use crate::listing::MatchResults;
use crate::listing_laws;
use crate::model;
use crate::model::{
    EntryView, MatchView, ProjectFolderAssignment, ProjectFolderId, ProjectGroupKey,
    RecentWorkspace, StringMatch, WorkspaceId,
};
use crate::seqs;
use crate::terms;
use vstd::prelude::*;

verus! {

/// The rows from `at` on begin with `part`.
pub open spec fn holds_at(rows: Seq<EntryView>, part: Seq<EntryView>, at: int) -> bool {
    &&& 0 <= at
    &&& at + part.len() <= rows.len()
    &&& forall|i: int| 0 <= i < part.len() ==> rows[at + i] == #[trigger] part[i]
}

impl RecentProjectsDelegate {
    pub(crate) open spec fn front(&self, empty: bool, results: &MatchResults) -> Seq<EntryView> {
        self.current_folders_section(empty, seqs::views(results.open_folders@))
            + self.this_window_section(empty, seqs::views(results.project_groups@))
    }

    pub(crate) open spec fn middle(&self, empty: bool, results: &MatchResults) -> Seq<EntryView> {
        self.front(empty, results) + self.folder_sections(self.folders@.len(), empty, results)
            + self.draft_section()
    }

    pub(crate) proof fn lemma_parts(
        &self,
        empty: bool,
        results: &MatchResults,
        current: Option<WorkspaceId>,
    )
        ensures
            ({
                let rows = self.listed(empty, results, current);
                let a = self.current_folders_section(empty, seqs::views(results.open_folders@));
                let b = self.this_window_section(empty, seqs::views(results.project_groups@));
                let c = self.folder_sections(self.folders@.len(), empty, results);
                let d = self.draft_section();
                let e = self.ungrouped_section(empty, results, current);
                let f = self.new_folder_section(empty);
                &&& self.front(empty, results).len() == a.len() + b.len()
                &&& self.middle(empty, results).len() == a.len() + b.len() + c.len() + d.len()
                &&& rows.len() == self.middle(empty, results).len() + e.len() + f.len()
                &&& holds_at(rows, a, 0)
                &&& holds_at(rows, b, a.len() as int)
                &&& holds_at(rows, c, self.front(empty, results).len() as int)
                &&& holds_at(
                    rows,
                    d,
                    (self.front(empty, results).len() + c.len()) as int,
                )
                &&& holds_at(rows, e, self.middle(empty, results).len() as int)
                &&& holds_at(rows, f, (self.middle(empty, results).len() + e.len()) as int)
            }),
    {
        let rows = self.listed(empty, results, current);
        let a = self.current_folders_section(empty, seqs::views(results.open_folders@));
        let b = self.this_window_section(empty, seqs::views(results.project_groups@));
        let c = self.folder_sections(self.folders@.len(), empty, results);
        let d = self.draft_section();
        let e = self.ungrouped_section(empty, results, current);
        let f = self.new_folder_section(empty);
        assert(rows == a + b + c + d + e + f);
    }

    /// Where the section of folder `f` begins among those of the folders.
    pub(crate) open spec fn folder_start(&self, f: int, empty: bool, results: &MatchResults) -> int {
        self.folder_sections(f as nat, empty, results).len() as int
    }

    pub(crate) proof fn lemma_folder_at_start(&self, n: nat, f: int, empty: bool, results: &MatchResults)
        requires
            0 <= f < n,
        ensures
            holds_at(
                self.folder_sections(n, empty, results),
                self.folder_section(f, empty, results),
                self.folder_start(f, empty, results),
            ),
            self.folder_start(f + 1, empty, results) <= self.folder_sections(
                n,
                empty,
                results,
            ).len(),
            self.folder_start(f + 1, empty, results) == self.folder_start(f, empty, results)
                + self.folder_section(f, empty, results).len(),
        decreases n,
    {
        let part = self.folder_section(f, empty, results);
        let at = self.folder_start(f, empty, results);
        let m = (n - 1) as nat;
        let front = self.folder_sections(m, empty, results);
        let all = self.folder_sections(n, empty, results);
        assert(all == front + self.folder_section(n - 1, empty, results));
        if f == n - 1 {
            assert forall|i: int| 0 <= i < part.len() implies all[at + i] == #[trigger] part[i] by {}
        } else {
            self.lemma_folder_at_start(m, f, empty, results);
            assert forall|i: int| 0 <= i < part.len() implies all[at + i] == #[trigger] part[i] by {
                assert(front[at + i] == part[i]);
            }
        }
    }

    /// The folder whose row is row `h` of the folders' sections.
    pub(crate) proof fn lemma_folder_at(&self, n: nat, empty: bool, results: &MatchResults, h: int) -> (f: int)
        requires
            0 <= h < self.folder_sections(n, empty, results).len(),
            self.folder_sections(n, empty, results)[h] is Folder,
        ensures
            0 <= f < n,
            h == self.folder_start(f, empty, results),
            self.folder_section(f, empty, results).len() > 0,
            h + self.folder_section(f, empty, results).len() < self.folder_sections(
                n,
                empty,
                results,
            ).len() ==> self.folder_sections(
                n,
                empty,
                results,
            )[h + self.folder_section(f, empty, results).len()] is Folder,
        decreases n,
    {
        let m = (n - 1) as nat;
        let front = self.folder_sections(m, empty, results);
        let last = self.folder_section(n - 1, empty, results);
        let all = self.folder_sections(n, empty, results);
        assert(all == front + last);
        if h >= front.len() {
            assert(all[h] == last[h - front.len()]);
            n - 1
        } else {
            assert(all[h] == front[h]);
            let f = self.lemma_folder_at(m, empty, results, h);
            self.lemma_folder_at_start(m, f, empty, results);
            let next: int = (h + self.folder_section(f, empty, results).len()) as int;
            if next < front.len() {
                assert(all[next] == front[next]);
            } else if next < all.len() {
                assert(all[next] == last[next - front.len()]);
                assert(last[0] is Folder);
            }
            f
        }
    }

    pub(crate) proof fn lemma_folder_rows(&self, n: nat, empty: bool, results: &MatchResults, i: int)
        requires
            0 <= i < self.folder_sections(n, empty, results).len(),
        ensures
            !(self.folder_sections(n, empty, results)[i] is Header),
            !(self.folder_sections(n, empty, results)[i] is OpenFolder),
            self.folder_sections(n, empty, results)[0] is Folder,
        decreases n,
    {
        let m = (n - 1) as nat;
        let front = self.folder_sections(m, empty, results);
        let last = self.folder_section(n - 1, empty, results);
        let all = self.folder_sections(n, empty, results);
        assert(all == front + last);
        if i < front.len() {
            self.lemma_folder_rows(m, empty, results, i);
            assert(all[i] == front[i]);
        } else {
            assert(all[i] == last[i - front.len()]);
        }
        if front.len() > 0 {
            self.lemma_folder_rows(m, empty, results, 0);
            assert(all[0] == front[0]);
        } else {
            assert(all[0] == last[0]);
        }
    }

    /// The title of row `h` is that of the section that begins there.
    pub(crate) proof fn lemma_title_at(
        &self,
        empty: bool,
        results: &MatchResults,
        current: Option<WorkspaceId>,
        h: int,
    )
        requires
            0 <= h < self.listed(empty, results, current).len(),
            self.listed(empty, results, current)[h] is Header,
        ensures
            ({
                let row = self.listed(empty, results, current)[h];
                let a = self.current_folders_section(empty, seqs::views(results.open_folders@));
                let b = self.this_window_section(empty, seqs::views(results.project_groups@));
                let e = self.ungrouped_section(empty, results, current);
                ||| h == 0 && a.len() > 0 && row == EntryView::Header("Current Folders"@)
                ||| h == a.len() && b.len() > 0 && row == EntryView::Header("This Window"@)
                ||| h == self.middle(empty, results).len() && e.len() > 0 && row
                    == EntryView::Header("Ungrouped"@)
            }),
    {
        let rows = self.listed(empty, results, current);
        let a = self.current_folders_section(empty, seqs::views(results.open_folders@));
        let b = self.this_window_section(empty, seqs::views(results.project_groups@));
        let c = self.folder_sections(self.folders@.len(), empty, results);
        let d = self.draft_section();
        let e = self.ungrouped_section(empty, results, current);
        let f = self.new_folder_section(empty);
        self.lemma_parts(empty, results, current);
        let two = self.front(empty, results).len();
        let three = two + c.len();
        let four = self.middle(empty, results).len();
        if h < a.len() {
            assert(rows[h] == a[h]);
        } else if h < two {
            assert(rows[h] == b[h - a.len()]);
        } else if h < three {
            assert(rows[h] == c[h - two]);
            self.lemma_folder_rows(self.folders@.len(), empty, results, h - two);
        } else if h < four {
            assert(rows[h] == d[h - three]);
        } else if h < four + e.len() {
            assert(rows[h] == e[h - four]);
        } else {
            assert(rows[h] == f[h - four - e.len()]);
        }
    }

    /// What stands under a title or a folder stands in its section.
    pub(crate) proof fn lemma_under_ungrouped(
        &self,
        empty: bool,
        results: &MatchResults,
        current: Option<WorkspaceId>,
        h: int,
        i: int,
    )
        requires
            terms::under(self.listed(empty, results, current), h, i),
            self.listed(empty, results, current)[h] == EntryView::Header("Ungrouped"@),
        ensures
            h == self.middle(empty, results).len(),
            i - h < self.ungrouped_section(empty, results, current).len(),
            self.listed(empty, results, current)[i] == self.ungrouped_section(
                empty,
                results,
                current,
            )[i - h],
    {
        reveal_strlit("Current Folders");
        reveal_strlit("This Window");
        reveal_strlit("Ungrouped");
        assert("Ungrouped"@.len() != "Current Folders"@.len());
        assert("Ungrouped"@.len() != "This Window"@.len());
        let rows = self.listed(empty, results, current);
        let e = self.ungrouped_section(empty, results, current);
        let f = self.new_folder_section(empty);
        self.lemma_parts(empty, results, current);
        self.lemma_title_at(empty, results, current, h);
        if i - h >= e.len() {
            let next: int = (h + e.len()) as int;
            assert(rows[next] == f[0]);
            assert(terms::is_project(rows[next]));
            assert(false);
        }
        assert(rows[h + (i - h)] == e[i - h]);
    }

    pub(crate) proof fn lemma_under_this_window(
        &self,
        empty: bool,
        results: &MatchResults,
        current: Option<WorkspaceId>,
        h: int,
        i: int,
    )
        requires
            terms::under(self.listed(empty, results, current), h, i),
            self.listed(empty, results, current)[h] == EntryView::Header("This Window"@),
        ensures
            ({
                let b = self.this_window_section(empty, seqs::views(results.project_groups@));
                &&& i - h < b.len()
                &&& self.listed(empty, results, current)[i] == b[i - h]
            }),
    {
        reveal_strlit("Current Folders");
        reveal_strlit("This Window");
        reveal_strlit("Ungrouped");
        assert("This Window"@.len() != "Current Folders"@.len());
        assert("Ungrouped"@.len() != "This Window"@.len());
        let rows = self.listed(empty, results, current);
        let b = self.this_window_section(empty, seqs::views(results.project_groups@));
        self.lemma_parts(empty, results, current);
        self.lemma_title_at(empty, results, current, h);
        if i - h >= b.len() {
            let next: int = (h + b.len()) as int;
            self.lemma_no_project_after(empty, results, current);
            assert(terms::is_project(rows[next]));
            assert(false);
        }
        assert(rows[h + (i - h)] == b[i - h]);
    }

    /// No project stands where the folders' sections begin or end.
    pub(crate) proof fn lemma_no_project_after(
        &self,
        empty: bool,
        results: &MatchResults,
        current: Option<WorkspaceId>,
    )
        ensures
            ({
                let rows = self.listed(empty, results, current);
                let c = self.folder_sections(self.folders@.len(), empty, results);
                let two = self.front(empty, results).len() as int;
                let three = two + c.len();
                let four = self.middle(empty, results).len() as int;
                &&& two < rows.len() ==> !terms::is_project(rows[two])
                &&& three < rows.len() ==> !terms::is_project(rows[three])
                &&& four < rows.len() ==> !terms::is_project(rows[four])
            }),
    {
        let rows = self.listed(empty, results, current);
        let c = self.folder_sections(self.folders@.len(), empty, results);
        let d = self.draft_section();
        let e = self.ungrouped_section(empty, results, current);
        let f = self.new_folder_section(empty);
        self.lemma_parts(empty, results, current);
        let two = self.front(empty, results).len() as int;
        let three = two + c.len();
        let four = self.middle(empty, results).len() as int;
        if four < rows.len() {
            if e.len() > 0 {
                assert(rows[four + 0] == e[0]);
            } else {
                assert(rows[four + e.len() + 0] == f[0]);
            }
        }
        if three < rows.len() && d.len() > 0 {
            assert(rows[three + 0] == d[0]);
        }
        if c.len() > 0 {
            self.lemma_folder_rows(self.folders@.len(), empty, results, 0);
            assert(rows[two + 0] == c[0]);
        }
    }

    /// What stands under a folder's row stands in the section of one of the folders.
    pub(crate) proof fn lemma_under_folder(
        &self,
        empty: bool,
        results: &MatchResults,
        current: Option<WorkspaceId>,
        h: int,
        i: int,
    ) -> (f: int)
        requires
            terms::under(self.listed(empty, results, current), h, i),
            self.listed(empty, results, current)[h] is Folder,
        ensures
            0 <= f < self.folders@.len(),
            i - h < self.folder_section(f, empty, results).len(),
            self.listed(empty, results, current)[h] == self.folder_section(f, empty, results)[0],
            forall|j: int|
                h <= j <= i ==> #[trigger] self.listed(empty, results, current)[j]
                    == self.folder_section(f, empty, results)[j - h],
    {
        let rows = self.listed(empty, results, current);
        let n = self.folders@.len();
        let a = self.current_folders_section(empty, seqs::views(results.open_folders@));
        let b = self.this_window_section(empty, seqs::views(results.project_groups@));
        let c = self.folder_sections(n, empty, results);
        let d = self.draft_section();
        let e = self.ungrouped_section(empty, results, current);
        let last = self.new_folder_section(empty);
        self.lemma_parts(empty, results, current);
        self.lemma_no_project_after(empty, results, current);
        let two = self.front(empty, results).len() as int;
        let three = two + c.len();
        let four = self.middle(empty, results).len() as int;
        if h < a.len() {
            assert(rows[h] == a[h]);
        } else if h < two {
            assert(rows[h] == b[h - a.len()]);
        } else if three <= h < four {
            assert(terms::is_project(rows[h + 1]));
        } else if four <= h < four + e.len() {
            assert(rows[h] == e[h - four]);
        } else if four + e.len() <= h {
            assert(rows[h] == last[h - four - e.len()]);
        }
        assert(two <= h < three);
        assert(rows[two + (h - two)] == c[h - two]);
        let f = self.lemma_folder_at(n, empty, results, h - two);
        let part = self.folder_section(f, empty, results);
        self.lemma_folder_at_start(n, f, empty, results);
        if i - h >= part.len() {
            let next: int = (h + part.len()) as int;
            assert(terms::is_project(rows[next]));
            if next < three {
                assert(rows[two + (next - two)] == c[next - two]);
            }
            assert(false);
        }
        assert forall|j: int| h <= j <= i implies #[trigger] rows[j] == part[j - h] by {
            assert(c[(h - two) + (j - h)] == part[j - h]);
            assert(rows[two + (j - two)] == c[j - two]);
        }
        f
    }

    /// A recent workspace that matches is listed among the ungrouped ones, unless an assignment
    /// speaks of it before any other workspace, it is the current one, a group of the window at
    /// the same place has its paths, or one of its paths is, component by component, an open
    /// folder's at the same place.
    pub proof fn unopened_projects_are_listed(
        &self,
        empty: bool,
        results: &MatchResults,
        current: Option<WorkspaceId>,
        id: usize,
    ) -> (x: (int, int))
        requires
            id < self.workspaces@.len(),
            empty || terms::found(results.recents@, id),
            forall|k: int|
                0 <= k < self.assignments@.len() ==> !terms::assigns_first(
                    #[trigger] self.assignments@[k],
                    self.workspaces@,
                    id as int,
                ),
            current is Some ==> current->0 != self.workspaces@[id as int].workspace_id,
            forall|g: int|
                0 <= g < self.window_project_groups@.len() && terms::same_place(
                    (#[trigger] self.window_project_groups@[g]).host,
                    terms::host_of(self.workspaces@[id as int].location),
                ) ==> !terms::same_list(
                    self.window_project_groups@[g].paths,
                    self.workspaces@[id as int].identity_paths,
                ),
            forall|p: int, f: int|
                0 <= p < self.workspaces@[id as int].paths.paths@.len() && 0 <= f
                    < self.open_folders@.len() && terms::same_place(
                    terms::host_of(self.workspaces@[id as int].location),
                    self.open_folders@[f].connection_options,
                ) ==> (#[trigger] self.workspaces@[id as int].paths.paths@[p])@.components
                    != (#[trigger] self.open_folders@[f]).path@.components,
        ensures
            terms::under(self.listed(empty, results, current), x.0, x.1),
            self.listed(empty, results, current)[x.0] == EntryView::Header("Ungrouped"@),
            self.listed(empty, results, current)[x.1] is RecentProject,
            self.listed(empty, results, current)[x.1]->RecentProject_0.candidate_id == id,
    {
        let w = self.workspaces@[id as int];
        let rows = self.listed(empty, results, current);
        let e = self.ungrouped_section(empty, results, current);
        let p = self.ungrouped(empty, results, current);
        let ids = self.ungrouped_ids(empty, results, current);
        let hits = listing::highlights(empty, seqs::views(results.recents@));
        self.workspaces_are_offered_unless_open(&w, current);
        delegate_laws::lemma_found(results.recents@, id);
        if self.filed_workspace(id) {
            let k = choose|k: int|
                0 <= k < self.assignments@.len() && #[trigger] self.assigned_workspace(k) == Some(
                    id,
                );
            self.lemma_assigned_workspace(k, id);
            let _ = self.assignments@[k];
            assert(false);
        }
        assert(self.workspaces@.len() == self.workspaces.len());
        seqs::lemma_index_filter(self.workspaces@.len(), p);
        assert(p(id as int));
        assert(ids.contains(id));
        let i = choose|i: int| 0 <= i < ids.len() && ids[i] == id;
        listing_laws::lemma_match_for(hits, id);
        self.lemma_parts(empty, results, current);
        let h = self.middle(empty, results).len() as int;
        assert(rows[h + 0] == e[0]);
        assert forall|j: int| h < j <= h + 1 + i implies terms::is_project(#[trigger] rows[j]) by {
            assert(rows[h + (j - h)] == e[j - h]);
        }
        assert(rows[h + (1 + i)] == e[1 + i]);
        (h, h + 1 + i)
    }

    /// Every row among the ungrouped ones is of a recent workspace that matches, of which no
    /// assignment speaks first, and which is not open.
    pub proof fn ungrouped_projects_are_not_open(
        &self,
        empty: bool,
        results: &MatchResults,
        current: Option<WorkspaceId>,
        h: int,
        i: int,
    ) -> (w: RecentWorkspace)
        requires
            terms::under(self.listed(empty, results, current), h, i),
            self.listed(empty, results, current)[h] == EntryView::Header("Ungrouped"@),
        ensures
            self.listed(empty, results, current)[i] is RecentProject,
            ({
                let id = self.listed(empty, results, current)[i]->RecentProject_0.candidate_id;
                &&& id < self.workspaces@.len()
                &&& w == self.workspaces@[id as int]
                &&& empty || terms::found(results.recents@, id)
                &&& forall|k: int|
                    0 <= k < self.assignments@.len() ==> !terms::assigns_first(
                        #[trigger] self.assignments@[k],
                        self.workspaces@,
                        id as int,
                    )
            }),
            current is Some ==> current->0 != w.workspace_id,
            forall|g: int|
                0 <= g < self.window_project_groups@.len() && terms::same_place(
                    (#[trigger] self.window_project_groups@[g]).host,
                    terms::host_of(w.location),
                ) ==> !terms::same_list(self.window_project_groups@[g].paths, w.identity_paths),
            forall|p: int, f: int|
                0 <= p < w.paths.paths@.len() && 0 <= f < self.open_folders@.len()
                    && terms::same_place(
                    terms::host_of(w.location),
                    self.open_folders@[f].connection_options,
                ) ==> (#[trigger] w.paths.paths@[p])@.components
                    != (#[trigger] self.open_folders@[f]).path@.components,
    {
        let p = self.ungrouped(empty, results, current);
        let ids = self.ungrouped_ids(empty, results, current);
        let hits = listing::highlights(empty, seqs::views(results.recents@));
        self.lemma_under_ungrouped(empty, results, current, h, i);
        assert(self.workspaces@.len() == self.workspaces.len());
        seqs::lemma_index_filter(self.workspaces@.len(), p);
        let id = ids[i - h - 1];
        listing_laws::lemma_match_for(hits, id);
        assert(p(id as int));
        let w = self.workspaces@[id as int];
        self.workspaces_are_offered_unless_open(&w, current);
        delegate_laws::lemma_found(results.recents@, id);
        assert forall|k: int| 0 <= k < self.assignments@.len() implies !terms::assigns_first(
            #[trigger] self.assignments@[k],
            self.workspaces@,
            id as int,
        ) by {
            self.lemma_assigned_workspace(k, id);
            assert(self.assigned_workspace(k) != Some(id));
        }
        w
    }

    /// The ungrouped projects stand as the recent workspaces do, each once.
    pub proof fn ungrouped_projects_keep_their_order(
        &self,
        empty: bool,
        results: &MatchResults,
        current: Option<WorkspaceId>,
        h: int,
        i: int,
        j: int,
    )
        requires
            terms::under(self.listed(empty, results, current), h, i),
            terms::under(self.listed(empty, results, current), h, j),
            self.listed(empty, results, current)[h] == EntryView::Header("Ungrouped"@),
            i < j,
        ensures
            self.listed(empty, results, current)[i]->RecentProject_0.candidate_id < self.listed(
                empty,
                results,
                current,
            )[j]->RecentProject_0.candidate_id,
    {
        let p = self.ungrouped(empty, results, current);
        let ids = self.ungrouped_ids(empty, results, current);
        let hits = listing::highlights(empty, seqs::views(results.recents@));
        self.lemma_under_ungrouped(empty, results, current, h, i);
        self.lemma_under_ungrouped(empty, results, current, h, j);
        assert(self.workspaces@.len() == self.workspaces.len());
        seqs::lemma_index_filter(self.workspaces@.len(), p);
        listing_laws::lemma_match_for(hits, ids[i - h - 1]);
        listing_laws::lemma_match_for(hits, ids[j - h - 1]);
        assert(ids[i - h - 1] < ids[j - h - 1]);
    }
}

} // verus!
