//! Which projects are listed under the folders and among those of this window.
use crate::delegate::RecentProjectsDelegate;
use crate::delegate_laws;
use crate::listing;
use crate::listing::MatchResults;
use crate::listing_laws;
use crate::listing_places;
use crate::model;
use crate::model::{
    EntryView, MatchView, ProjectFolderAssignment, ProjectFolderId, ProjectGroupKey,
    RecentWorkspace, StringMatch, WorkspaceId,
};
use crate::seqs;
use crate::terms;
use vstd::prelude::*;

verus! {

/// The row is the folder's.
pub open spec fn is_row_of(row: EntryView, folder_id: ProjectFolderId, name: Seq<char>) -> bool {
    row is Folder && row->folder_id == folder_id && row->name == name
}

pub(crate) proof fn lemma_by_position()
    ensures
        seqs::is_preorder(listing::by_position()),
{
    let le = listing::by_position();
    assert forall|a: (i64, usize), b: (i64, usize)| #[trigger] le(a, b) || le(b, a) by {}
    assert forall|a: (i64, usize), b: (i64, usize), c: (i64, usize)| #[trigger]
        le(a, b) && #[trigger] le(b, c) implies le(a, c) by {}
}

impl RecentProjectsDelegate {
    /// The section of folder `f` in the listing.
    pub(crate) proof fn lemma_folder_in_listing(
        &self,
        empty: bool,
        results: &MatchResults,
        current: Option<WorkspaceId>,
        f: int,
    ) -> (h: int)
        requires
            0 <= f < self.folders@.len(),
        ensures
            h == self.front(empty, results).len() + self.folder_start(f, empty, results),
            listing_places::holds_at(
                self.listed(empty, results, current),
                self.folder_section(f, empty, results),
                h,
            ),
    {
        let rows = self.listed(empty, results, current);
        let n = self.folders@.len();
        let c = self.folder_sections(n, empty, results);
        let part = self.folder_section(f, empty, results);
        let two: int = self.front(empty, results).len() as int;
        let at: int = self.folder_start(f, empty, results);
        self.lemma_parts(empty, results, current);
        self.lemma_folder_at_start(n, f, empty, results);
        assert forall|i: int| 0 <= i < part.len() implies rows[two + at + i] == #[trigger] part[
            i] by {
            assert(c[at + i] == part[i]);
            assert(rows[two + (at + i)] == c[at + i]);
        }
        two + at
    }

    /// While everything is listed or its name matches, a folder has a row with its key and name.
    pub proof fn wanted_folders_are_listed(
        &self,
        empty: bool,
        results: &MatchResults,
        current: Option<WorkspaceId>,
        f: int,
    ) -> (h: int)
        requires
            0 <= f < self.folders@.len(),
            empty || terms::folder_found(
                self.folders@,
                results.folder_names@,
                self.folders@[f].folder_id,
            ),
        ensures
            0 <= h < self.listed(empty, results, current).len(),
            is_row_of(
                self.listed(empty, results, current)[h],
                self.folders@[f].folder_id,
                self.folders@[f].name@,
            ),
    {
        self.lemma_folder_found(results.folder_names@, self.folders@[f].folder_id);
        let h = self.lemma_folder_in_listing(empty, results, current, f);
        let part = self.folder_section(f, empty, results);
        assert(self.listed(empty, results, current)[h + 0] == part[0]);
        h
    }

    /// Folders that are listed stand as they are stored.
    pub proof fn wanted_folders_keep_their_order(
        &self,
        empty: bool,
        results: &MatchResults,
        current: Option<WorkspaceId>,
        f: int,
        g: int,
    ) -> (x: (int, int))
        requires
            0 <= f < g < self.folders@.len(),
            empty || (terms::folder_found(
                self.folders@,
                results.folder_names@,
                self.folders@[f].folder_id,
            ) && terms::folder_found(
                self.folders@,
                results.folder_names@,
                self.folders@[g].folder_id,
            )),
        ensures
            0 <= x.0 < x.1 < self.listed(empty, results, current).len(),
            is_row_of(
                self.listed(empty, results, current)[x.0],
                self.folders@[f].folder_id,
                self.folders@[f].name@,
            ),
            is_row_of(
                self.listed(empty, results, current)[x.1],
                self.folders@[g].folder_id,
                self.folders@[g].name@,
            ),
    {
        let rows = self.listed(empty, results, current);
        self.lemma_folder_found(results.folder_names@, self.folders@[f].folder_id);
        self.lemma_folder_found(results.folder_names@, self.folders@[g].folder_id);
        let h = self.lemma_folder_in_listing(empty, results, current, f);
        let i = self.lemma_folder_in_listing(empty, results, current, g);
        assert(rows[h + 0] == self.folder_section(f, empty, results)[0]);
        assert(rows[i + 0] == self.folder_section(g, empty, results)[0]);
        self.lemma_folder_at_start(g as nat, f, empty, results);
        (h, i)
    }

    /// A row that is a folder's is that of a stored folder, or the draft's while a folder is
    /// created. A stored folder whose name does not match has something under it.
    pub proof fn folder_rows_are_of_folders(
        &self,
        empty: bool,
        results: &MatchResults,
        current: Option<WorkspaceId>,
        h: int,
    ) -> (f: int)
        requires
            0 <= h < self.listed(empty, results, current).len(),
            self.listed(empty, results, current)[h] is Folder,
        ensures
            0 <= f <= self.folders@.len(),
            f < self.folders@.len() ==> {
                &&& is_row_of(
                    self.listed(empty, results, current)[h],
                    self.folders@[f].folder_id,
                    self.folders@[f].name@,
                )
                &&& empty || terms::folder_found(
                    self.folders@,
                    results.folder_names@,
                    self.folders@[f].folder_id,
                ) || terms::under(self.listed(empty, results, current), h, h + 1)
            },
            f == self.folders@.len() ==> {
                &&& self.creating()
                &&& is_row_of(
                    self.listed(empty, results, current)[h],
                    ProjectFolderId((-1) as i64),
                    Seq::empty(),
                )
            },
    {
        let rows = self.listed(empty, results, current);
        let n = self.folders@.len();
        let a = self.current_folders_section(empty, seqs::views(results.open_folders@));
        let b = self.this_window_section(empty, seqs::views(results.project_groups@));
        let c = self.folder_sections(n, empty, results);
        let d = self.draft_section();
        let e = self.ungrouped_section(empty, results, current);
        let last = self.new_folder_section(empty);
        self.lemma_parts(empty, results, current);
        let two: int = self.front(empty, results).len() as int;
        let three: int = two + c.len();
        let four: int = self.middle(empty, results).len() as int;
        if h < a.len() {
            assert(rows[h] == a[h]);
        } else if h < two {
            assert(rows[h] == b[h - a.len()]);
        } else if four <= h < four + e.len() {
            assert(rows[h] == e[h - four]);
        } else if four + e.len() <= h {
            assert(rows[h] == last[h - four - e.len()]);
        }
        if three <= h < four {
            assert(rows[three + (h - three)] == d[h - three]);
            n as int
        } else {
            assert(rows[two + (h - two)] == c[h - two]);
            let f = self.lemma_folder_at(n, empty, results, h - two);
            let part = self.folder_section(f, empty, results);
            self.lemma_folder_found(results.folder_names@, self.folders@[f].folder_id);
            let at = self.lemma_folder_in_listing(empty, results, current, f);
            assert(rows[at + 0] == part[0]);
            if !self.whole_folder(f, empty, results) {
                assert(part.len() > 1);
                assert(rows[at + 1] == part[1]);
                assert(terms::is_project(rows[h + 1]));
            }
            f
        }
    }

    proof fn lemma_member(&self, k: int, id: usize)
        requires
            0 <= k < self.assignments@.len(),
            terms::assigns_first(self.assignments@[k], self.workspaces@, id as int),
        ensures
            self.member_ids(self.assignments@[k].folder_id).contains(id),
    {
        let folder_id = self.assignments@[k].folder_id;
        let m = self.membership(folder_id);
        let raw = seqs::index_filter_map(self.assignments@.len(), m);
        let sorted = self.members(folder_id);
        let x = (self.assignments@[k].position, id);
        self.lemma_assigned_workspace(k, id);
        seqs::lemma_index_filter_map(self.assignments@.len(), m);
        assert(m(k) == Some(x));
        assert(raw.contains(x));
        lemma_by_position();
        seqs::lemma_stable_sort(raw, listing::by_position());
        raw.to_multiset_ensures();
        sorted.to_multiset_ensures();
        assert(raw.to_multiset().count(x) > 0);
        assert(sorted.contains(x));
        let i = choose|i: int| 0 <= i < sorted.len() && sorted[i] == x;
        assert(self.member_ids(folder_id)[i] == id);
    }

    /// The row of member `i` of the folder.
    pub(crate) proof fn lemma_visible_row(
        &self,
        empty: bool,
        results: &MatchResults,
        current: Option<WorkspaceId>,
        f: int,
        i: int,
    ) -> (x: (int, int))
        requires
            0 <= f < self.folders@.len(),
            0 <= i < self.visible_members(f, empty, results).len(),
        ensures
            x.0 == self.front(empty, results).len() + self.folder_start(f, empty, results),
            x.1 == x.0 + 1 + i,
            terms::under(self.listed(empty, results, current), x.0, x.1),
            is_row_of(
                self.listed(empty, results, current)[x.0],
                self.folders@[f].folder_id,
                self.folders@[f].name@,
            ),
            self.listed(empty, results, current)[x.1] is RecentProject,
            self.listed(empty, results, current)[x.1]->RecentProject_0.candidate_id
                == self.visible_members(f, empty, results)[i],
    {
        let rows = self.listed(empty, results, current);
        let part = self.folder_section(f, empty, results);
        let members = self.visible_members(f, empty, results);
        let hits = listing::highlights(empty, seqs::views(results.recents@));
        listing_laws::lemma_match_for(hits, members[i]);
        let h = self.lemma_folder_in_listing(empty, results, current, f);
        assert(rows[h + 0] == part[0]);
        assert forall|j: int| h < j <= h + 1 + i implies terms::is_project(#[trigger] rows[j]) by {
            assert(rows[h + (j - h)] == part[j - h]);
        }
        assert(rows[h + (1 + i)] == part[1 + i]);
        (h, h + 1 + i)
    }

    /// Where a member of the folder stands among those that are shown.
    proof fn lemma_shown_member(
        &self,
        empty: bool,
        results: &MatchResults,
        k: int,
        f: int,
        id: usize,
    ) -> (i: int)
        requires
            0 <= k < self.assignments@.len(),
            0 <= f < self.folders@.len(),
            terms::assigns_first(self.assignments@[k], self.workspaces@, id as int),
            self.assignments@[k].folder_id == self.folders@[f].folder_id,
            empty || terms::folder_found(
                self.folders@,
                results.folder_names@,
                self.folders@[f].folder_id,
            ) || terms::found(results.recents@, id),
        ensures
            0 <= i < self.visible_members(f, empty, results).len(),
            self.visible_members(f, empty, results)[i] == id,
    {
        let folder_id = self.folders@[f].folder_id;
        let members = self.visible_members(f, empty, results);
        let all = self.member_ids(folder_id);
        let q = listing::shown(
            self.whole_folder(f, empty, results),
            seqs::views(results.recents@),
        );
        self.lemma_member(k, id);
        delegate_laws::lemma_found(results.recents@, id);
        self.lemma_folder_found(results.folder_names@, folder_id);
        let at = choose|at: int| 0 <= at < all.len() && all[at] == id;
        assert(q(all[at]));
        all.lemma_filter_contains(q, at);
        assert(members.contains(id));
        choose|i: int| 0 <= i < members.len() && members[i] == id
    }

    /// A workspace of which an assignment speaks first is listed under every folder with that
    /// assignment's key, where everything is listed, the folder's name matches or the workspace
    /// does. Whether it is open does not count there.
    pub proof fn assigned_projects_are_listed_in_their_folder(
        &self,
        empty: bool,
        results: &MatchResults,
        current: Option<WorkspaceId>,
        k: int,
        f: int,
        id: usize,
    ) -> (x: (int, int))
        requires
            0 <= k < self.assignments@.len(),
            0 <= f < self.folders@.len(),
            terms::assigns_first(self.assignments@[k], self.workspaces@, id as int),
            self.assignments@[k].folder_id == self.folders@[f].folder_id,
            empty || terms::folder_found(
                self.folders@,
                results.folder_names@,
                self.folders@[f].folder_id,
            ) || terms::found(results.recents@, id),
        ensures
            terms::under(self.listed(empty, results, current), x.0, x.1),
            is_row_of(
                self.listed(empty, results, current)[x.0],
                self.folders@[f].folder_id,
                self.folders@[f].name@,
            ),
            self.listed(empty, results, current)[x.1] is RecentProject,
            self.listed(empty, results, current)[x.1]->RecentProject_0.candidate_id == id,
    {
        let i = self.lemma_shown_member(empty, results, k, f, id);
        self.lemma_visible_row(empty, results, current, f, i)
    }

    /// Where a group of the folder stands among those that are shown.
    proof fn lemma_shown_group(
        &self,
        empty: bool,
        results: &MatchResults,
        k: int,
        f: int,
        g: usize,
    ) -> (i: int)
        requires
            g < self.window_project_groups@.len(),
            0 <= f < self.folders@.len(),
            terms::first_to_assign(self.assignments@, self.window_project_groups@[g as int], k),
            self.assignments@[k].folder_id == self.folders@[f].folder_id,
            forall|w: int|
                0 <= w < self.workspaces@.len() ==> !terms::filed_alike(
                    #[trigger] self.workspaces@[w],
                    self.window_project_groups@[g as int],
                ),
            empty || terms::folder_found(
                self.folders@,
                results.folder_names@,
                self.folders@[f].folder_id,
            ) || terms::found(results.project_groups@, g),
        ensures
            0 <= i < self.visible_groups(f, empty, results).len(),
            self.visible_groups(f, empty, results)[i] == g,
    {
        let key = self.window_project_groups@[g as int];
        let folder_id = self.folders@[f].folder_id;
        let groups = self.visible_groups(f, empty, results);
        let all = self.folder_groups(folder_id);
        let p = self.grouped_in(folder_id);
        let q = listing::shown(
            self.whole_folder(f, empty, results),
            seqs::views(results.project_groups@),
        );
        self.the_first_assignment_files_a_group(&key, k);
        self.lemma_represented(&key);
        delegate_laws::lemma_found(results.project_groups@, g);
        self.lemma_folder_found(results.folder_names@, folder_id);
        assert(self.window_project_groups.len() == self.window_project_groups@.len());
        seqs::lemma_index_filter(self.window_project_groups@.len(), p);
        assert(p(g as int));
        assert(all.contains(g));
        let at = choose|at: int| 0 <= at < all.len() && all[at] == g;
        assert(q(all[at]));
        all.lemma_filter_contains(q, at);
        assert(groups.contains(g));
        choose|i: int| 0 <= i < groups.len() && groups[i] == g
    }

    /// A group of the window is listed under the folder that the first assignment with its host
    /// and paths names, unless a recent workspace with that host and those paths stands for it;
    /// where everything is listed, or the folder's name or the group matches.
    pub proof fn assigned_groups_are_listed_in_their_folder(
        &self,
        empty: bool,
        results: &MatchResults,
        current: Option<WorkspaceId>,
        k: int,
        f: int,
        g: usize,
    ) -> (x: (int, int))
        requires
            g < self.window_project_groups@.len(),
            0 <= f < self.folders@.len(),
            terms::first_to_assign(self.assignments@, self.window_project_groups@[g as int], k),
            self.assignments@[k].folder_id == self.folders@[f].folder_id,
            forall|w: int|
                0 <= w < self.workspaces@.len() ==> !terms::filed_alike(
                    #[trigger] self.workspaces@[w],
                    self.window_project_groups@[g as int],
                ),
            empty || terms::folder_found(
                self.folders@,
                results.folder_names@,
                self.folders@[f].folder_id,
            ) || terms::found(results.project_groups@, g),
        ensures
            terms::under(self.listed(empty, results, current), x.0, x.1),
            is_row_of(
                self.listed(empty, results, current)[x.0],
                self.folders@[f].folder_id,
                self.folders@[f].name@,
            ),
            self.listed(empty, results, current)[x.1] is ProjectGroup,
            self.listed(empty, results, current)[x.1]->ProjectGroup_0.candidate_id == g,
    {
        let rows = self.listed(empty, results, current);
        let part = self.folder_section(f, empty, results);
        let members = self.visible_members(f, empty, results);
        let groups = self.visible_groups(f, empty, results);
        let hits = listing::highlights(empty, seqs::views(results.project_groups@));
        let i = self.lemma_shown_group(empty, results, k, f, g);
        listing_laws::lemma_match_for(hits, g);
        let h = self.lemma_folder_in_listing(empty, results, current, f);
        let to: int = 1 + members.len() + i;
        assert(rows[h + 0] == part[0]);
        assert forall|j: int| h < j <= h + to implies terms::is_project(#[trigger] rows[j]) by {
            assert(rows[h + (j - h)] == part[j - h]);
        }
        assert(part[to] == listing::group_rows(groups, hits)[i]);
        assert(rows[h + to] == part[to]);
        (h, h + to)
    }

    /// The assignment that put member `i` of the folder there, and whether it is shown.
    proof fn lemma_visible_member(
        &self,
        f: int,
        empty: bool,
        results: &MatchResults,
        i: int,
    ) -> (k: int)
        requires
            0 <= f < self.folders@.len(),
            0 <= i < self.visible_members(f, empty, results).len(),
        ensures
            0 <= k < self.assignments@.len(),
            self.assignments@[k].folder_id == self.folders@[f].folder_id,
            terms::assigns_first(
                self.assignments@[k],
                self.workspaces@,
                self.visible_members(f, empty, results)[i] as int,
            ),
            self.whole_folder(f, empty, results) || terms::found(
                results.recents@,
                self.visible_members(f, empty, results)[i],
            ),
    {
        let folder_id = self.folders@[f].folder_id;
        let members = self.visible_members(f, empty, results);
        let all = self.member_ids(folder_id);
        let m = self.membership(folder_id);
        let raw = seqs::index_filter_map(self.assignments@.len(), m);
        let sorted = self.members(folder_id);
        let q = listing::shown(
            self.whole_folder(f, empty, results),
            seqs::views(results.recents@),
        );
        let id = members[i];
        all.lemma_filter_contains_rev(q, id);
        let at = choose|at: int| 0 <= at < all.len() && all[at] == id;
        all.lemma_filter_pred(q, i);
        delegate_laws::lemma_found(results.recents@, id);
        let x = sorted[at];
        lemma_by_position();
        seqs::lemma_stable_sort(raw, listing::by_position());
        raw.to_multiset_ensures();
        sorted.to_multiset_ensures();
        assert(sorted.contains(x));
        assert(sorted.to_multiset().count(x) > 0);
        assert(raw.contains(x));
        let r = choose|r: int| 0 <= r < raw.len() && raw[r] == x;
        seqs::lemma_index_filter_map(self.assignments@.len(), m);
        let k = choose|k: int|
            0 <= k < self.assignments@.len() && #[trigger] m(k) == Some(raw[r]);
        assert(m(k) == Some(x));
        self.lemma_assigned_workspace(k, id);
        k
    }

    /// What stands under a folder's row belongs there: the folder is stored under that key and
    /// name; an assignment with its key speaks of the workspace first, or the first assignment of
    /// the group has its key and no recent workspace stands for the group. Where not everything is
    /// listed, the folder's name or the project matches.
    pub proof fn projects_under_folders_are_assigned(
        &self,
        empty: bool,
        results: &MatchResults,
        current: Option<WorkspaceId>,
        h: int,
        i: int,
    ) -> (x: (int, int))
        requires
            terms::under(self.listed(empty, results, current), h, i),
            self.listed(empty, results, current)[h] is Folder,
        ensures
            0 <= x.0 < self.folders@.len(),
            is_row_of(
                self.listed(empty, results, current)[h],
                self.folders@[x.0].folder_id,
                self.folders@[x.0].name@,
            ),
            0 <= x.1 < self.assignments@.len(),
            self.assignments@[x.1].folder_id == self.folders@[x.0].folder_id,
            match self.listed(empty, results, current)[i] {
                EntryView::RecentProject(m) => {
                    &&& terms::assigns_first(
                        self.assignments@[x.1],
                        self.workspaces@,
                        m.candidate_id as int,
                    )
                    &&& empty || terms::folder_found(
                        self.folders@,
                        results.folder_names@,
                        self.folders@[x.0].folder_id,
                    ) || terms::found(results.recents@, m.candidate_id)
                },
                EntryView::ProjectGroup(m) => {
                    &&& m.candidate_id < self.window_project_groups@.len()
                    &&& terms::first_to_assign(
                        self.assignments@,
                        self.window_project_groups@[m.candidate_id as int],
                        x.1,
                    )
                    &&& forall|w: int|
                        0 <= w < self.workspaces@.len() ==> !terms::filed_alike(
                            #[trigger] self.workspaces@[w],
                            self.window_project_groups@[m.candidate_id as int],
                        )
                    &&& empty || terms::folder_found(
                        self.folders@,
                        results.folder_names@,
                        self.folders@[x.0].folder_id,
                    ) || terms::found(results.project_groups@, m.candidate_id)
                },
                _ => false,
            },
    {
        let rows = self.listed(empty, results, current);
        let f = self.lemma_under_folder(empty, results, current, h, i);
        let folder_id = self.folders@[f].folder_id;
        let part = self.folder_section(f, empty, results);
        let members = self.visible_members(f, empty, results);
        let groups = self.visible_groups(f, empty, results);
        self.lemma_folder_found(results.folder_names@, folder_id);
        assert(rows[i] == part[i - h]);
        if i - h - 1 < members.len() {
            let hits = listing::highlights(empty, seqs::views(results.recents@));
            assert(part[i - h] == listing::recent_rows(members, hits)[i - h - 1]);
            listing_laws::lemma_match_for(hits, members[i - h - 1]);
            let k = self.lemma_visible_member(f, empty, results, i - h - 1);
            (f, k)
        } else {
            let hits = listing::highlights(empty, seqs::views(results.project_groups@));
            let at: int = i - h - 1 - members.len();
            let all = self.folder_groups(folder_id);
            let p = self.grouped_in(folder_id);
            let q = listing::shown(
                self.whole_folder(f, empty, results),
                seqs::views(results.project_groups@),
            );
            assert(part[i - h] == listing::group_rows(groups, hits)[at]);
            let g = groups[at];
            listing_laws::lemma_match_for(hits, g);
            all.lemma_filter_contains_rev(q, g);
            all.lemma_filter_pred(q, at);
            delegate_laws::lemma_found(results.project_groups@, g);
            assert(self.window_project_groups.len() == self.window_project_groups@.len());
            seqs::lemma_index_filter(self.window_project_groups@.len(), p);
            let c = choose|c: int| 0 <= c < all.len() && all[c] == g;
            assert(p(all[c] as int));
            let key = self.window_project_groups@[g as int];
            self.lemma_represented(&key);
            let k = self.lemma_filing_assignment(&key);
            (f, k)
        }
    }
}

} // verus!
