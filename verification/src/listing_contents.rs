//! In which order projects are listed, and what their rows highlight.
use crate::delegate::RecentProjectsDelegate;
use crate::delegate_laws;
use crate::listing;
use crate::listing::{MatchRequest, MatchResults};
use crate::listing_folders;
use crate::listing_laws;
use crate::listing_places;
use crate::model;
use crate::model::{
    EntryView, MatchView, ProjectFolderAssignment, ProjectFolderId, ProjectGroupKey,
    ProjectPickerStyle, RecentWorkspace, StringMatch, WorkspaceId,
};
use crate::path::PathView;
use crate::seqs;
use crate::terms;
use crate::text;
use crate::text_laws;
use vstd::prelude::*;

verus! {

/// The row says no more than which candidate it is of.
pub open spec fn is_blank(m: MatchView) -> bool {
    m.positions.len() == 0 && m.string.len() == 0
}

impl RecentProjectsDelegate {
    /// The workspaces under a folder stand by their positions in it; those with the same position
    /// as they were assigned.
    pub proof fn members_stand_by_position(
        &self,
        empty: bool,
        results: &MatchResults,
        current: Option<WorkspaceId>,
        h: int,
        i: int,
        j: int,
    ) -> (x: (int, int))
        requires
            terms::under(self.listed(empty, results, current), h, i),
            terms::under(self.listed(empty, results, current), h, j),
            self.listed(empty, results, current)[h] is Folder,
            self.listed(empty, results, current)[i] is RecentProject,
            self.listed(empty, results, current)[j] is RecentProject,
            i < j,
        ensures
            0 <= x.0 < self.assignments@.len(),
            0 <= x.1 < self.assignments@.len(),
            self.assignments@[x.0].folder_id
                == self.listed(empty, results, current)[h]->folder_id,
            self.assignments@[x.1].folder_id
                == self.listed(empty, results, current)[h]->folder_id,
            terms::assigns_first(
                self.assignments@[x.0],
                self.workspaces@,
                self.listed(empty, results, current)[i]->RecentProject_0.candidate_id as int,
            ),
            terms::assigns_first(
                self.assignments@[x.1],
                self.workspaces@,
                self.listed(empty, results, current)[j]->RecentProject_0.candidate_id as int,
            ),
            self.assignments@[x.0].position <= self.assignments@[x.1].position,
            self.assignments@[x.0].position == self.assignments@[x.1].position ==> x.0 < x.1,
    {
        let rows = self.listed(empty, results, current);
        let f = self.lemma_under_folder(empty, results, current, h, j);
        let folder_id = self.folders@[f].folder_id;
        let part = self.folder_section(f, empty, results);
        let members = self.visible_members(f, empty, results);
        let groups = self.visible_groups(f, empty, results);
        let hits = listing::highlights(empty, seqs::views(results.recents@));
        let group_hits = listing::highlights(empty, seqs::views(results.project_groups@));
        assert(rows[h] == part[0]);
        assert(rows[i] == part[i - h]);
        assert(rows[j] == part[j - h]);
        if j - h - 1 >= members.len() {
            assert(part[j - h] == listing::group_rows(groups, group_hits)[j - h - 1
                - members.len()]);
            assert(false);
        }
        let u = members[i - h - 1];
        let v = members[j - h - 1];
        assert(part[i - h] == listing::recent_rows(members, hits)[i - h - 1]);
        assert(part[j - h] == listing::recent_rows(members, hits)[j - h - 1]);
        listing_laws::lemma_match_for(hits, u);
        listing_laws::lemma_match_for(hits, v);
        let all = self.member_ids(folder_id);
        let m = self.membership(folder_id);
        let raw = seqs::index_filter_map(self.assignments@.len(), m);
        let sorted = self.members(folder_id);
        let q = listing::shown(
            self.whole_folder(f, empty, results),
            seqs::views(results.recents@),
        );
        let (s, t) = seqs::lemma_filter_came_in_order(all, q, i - h - 1, j - h - 1);
        listing_folders::lemma_by_position();
        let (a, b) = seqs::lemma_stable_sort_order(raw, listing::by_position(), s, t);
        if a < b {
            let (k, l) = seqs::lemma_index_filter_map_order(self.assignments@.len(), m, a, b);
            self.lemma_assigned_workspace(k, u);
            self.lemma_assigned_workspace(l, v);
            (k, l)
        } else {
            let (l, k) = seqs::lemma_index_filter_map_order(self.assignments@.len(), m, b, a);
            self.lemma_assigned_workspace(k, u);
            self.lemma_assigned_workspace(l, v);
            (k, l)
        }
    }

    /// Under a folder the groups follow the workspaces and stand as in the window, each once.
    pub proof fn groups_follow_members(
        &self,
        empty: bool,
        results: &MatchResults,
        current: Option<WorkspaceId>,
        h: int,
        i: int,
        j: int,
    )
        requires
            terms::under(self.listed(empty, results, current), h, i),
            terms::under(self.listed(empty, results, current), h, j),
            self.listed(empty, results, current)[h] is Folder,
            self.listed(empty, results, current)[i] is ProjectGroup,
            i < j,
        ensures
            self.listed(empty, results, current)[j] is ProjectGroup,
            self.listed(empty, results, current)[i]->ProjectGroup_0.candidate_id < self.listed(
                empty,
                results,
                current,
            )[j]->ProjectGroup_0.candidate_id,
    {
        let rows = self.listed(empty, results, current);
        let f = self.lemma_under_folder(empty, results, current, h, j);
        let folder_id = self.folders@[f].folder_id;
        let part = self.folder_section(f, empty, results);
        let members = self.visible_members(f, empty, results);
        let groups = self.visible_groups(f, empty, results);
        let hits = listing::highlights(empty, seqs::views(results.project_groups@));
        assert(rows[i] == part[i - h]);
        assert(rows[j] == part[j - h]);
        if i - h - 1 < members.len() {
            assert(part[i - h] is RecentProject);
            assert(false);
        }
        let u: int = i - h - 1 - members.len();
        let v: int = j - h - 1 - members.len();
        assert(part[i - h] == listing::group_rows(groups, hits)[u]);
        assert(part[j - h] == listing::group_rows(groups, hits)[v]);
        listing_laws::lemma_match_for(hits, groups[u]);
        listing_laws::lemma_match_for(hits, groups[v]);
        let all = self.folder_groups(folder_id);
        let q = listing::shown(
            self.whole_folder(f, empty, results),
            seqs::views(results.project_groups@),
        );
        let (s, t) = seqs::lemma_filter_came_in_order(all, q, u, v);
        assert(self.window_project_groups.len() == self.window_project_groups@.len());
        seqs::lemma_index_filter(self.window_project_groups@.len(), self.grouped_in(folder_id));
        assert(all[s] < all[t]);
    }

    /// Rows of workspaces, and of groups under folders, highlight what the last match of their
    /// candidate highlights; nothing without a match or while everything is listed.
    pub proof fn rows_highlight_their_last_match(
        &self,
        empty: bool,
        results: &MatchResults,
        current: Option<WorkspaceId>,
        h: int,
        i: int,
    )
        requires
            terms::under(self.listed(empty, results, current), h, i),
            self.listed(empty, results, current)[h] is Folder || self.listed(
                empty,
                results,
                current,
            )[h] == EntryView::Header("Ungrouped"@),
        ensures
            match self.listed(empty, results, current)[i] {
                EntryView::RecentProject(m) => if empty {
                    is_blank(m)
                } else {
                    terms::highlights_of(results.recents@, m)
                },
                EntryView::ProjectGroup(m) => if empty {
                    is_blank(m)
                } else {
                    terms::highlights_of(results.project_groups@, m)
                },
                _ => false,
            },
    {
        let rows = self.listed(empty, results, current);
        let recent_hits = listing::highlights(empty, seqs::views(results.recents@));
        let group_hits = listing::highlights(empty, seqs::views(results.project_groups@));
        if rows[h] is Folder {
            let f = self.lemma_under_folder(empty, results, current, h, i);
            let part = self.folder_section(f, empty, results);
            let members = self.visible_members(f, empty, results);
            let groups = self.visible_groups(f, empty, results);
            assert(rows[i] == part[i - h]);
            if i - h - 1 < members.len() {
                let id = members[i - h - 1];
                assert(part[i - h] == listing::recent_rows(members, recent_hits)[i - h - 1]);
                delegate_laws::candidates_are_highlighted_by_their_last_match(
                    results.recents@,
                    id,
                );
            } else {
                let at: int = i - h - 1 - members.len();
                let id = groups[at];
                assert(part[i - h] == listing::group_rows(groups, group_hits)[at]);
                delegate_laws::candidates_are_highlighted_by_their_last_match(
                    results.project_groups@,
                    id,
                );
            }
        } else {
            self.lemma_under_ungrouped(empty, results, current, h, i);
            let ids = self.ungrouped_ids(empty, results, current);
            let id = ids[i - h - 1];
            assert(rows[i] == listing::recent_rows(ids, recent_hits)[i - h - 1]);
            delegate_laws::candidates_are_highlighted_by_their_last_match(results.recents@, id);
        }
    }

    /// The group's first assignment names a stored folder.
    pub open spec fn goes_to_a_folder(&self, g: int, k: int) -> bool {
        &&& 0 <= g < self.window_project_groups@.len()
        &&& terms::first_to_assign(self.assignments@, self.window_project_groups@[g], k)
        &&& terms::folder_exists(self.folders@, self.assignments@[k].folder_id)
    }

    proof fn lemma_filed_group(&self, g: int) -> (k: int)
        ensures
            self.filed_group(g) ==> self.goes_to_a_folder(g, k),
            !self.filed_group(g) ==> forall|j: int| !#[trigger] self.goes_to_a_folder(g, j),
    {
        if self.filed_group(g) {
            let key = self.window_project_groups@[g];
            let k = self.lemma_filing_assignment(&key);
            let f = choose|f: int|
                0 <= f < self.folders@.len() && (#[trigger] self.folders@[f]).folder_id
                    == self.assignments@[k].folder_id;
            assert(terms::folder_exists(self.folders@, self.assignments@[k].folder_id));
            k
        } else {
            assert forall|j: int| !#[trigger] self.goes_to_a_folder(g, j) by {
                if self.goes_to_a_folder(g, j) {
                    self.the_first_assignment_files_a_group(&self.window_project_groups@[g], j);
                    let f = choose|f: int|
                        0 <= f < self.folders@.len() && (#[trigger] self.folders@[f]).folder_id
                            == self.assignments@[j].folder_id;
                    assert(self.known_folder(self.folders@[f].folder_id));
                }
            }
            0
        }
    }

    /// While everything is listed, every group whose first assignment names no stored folder has
    /// a row among those of this window.
    pub proof fn loose_groups_are_listed(
        &self,
        results: &MatchResults,
        current: Option<WorkspaceId>,
        g: usize,
    ) -> (x: (int, int))
        requires
            g < self.window_project_groups@.len(),
            forall|k: int| !#[trigger] self.goes_to_a_folder(g as int, k),
        ensures
            terms::under(self.listed(true, results, current), x.0, x.1),
            self.listed(true, results, current)[x.0] == EntryView::Header("This Window"@),
            self.listed(true, results, current)[x.1] is ProjectGroup,
            self.listed(true, results, current)[x.1]->ProjectGroup_0.candidate_id == g,
            is_blank(self.listed(true, results, current)[x.1]->ProjectGroup_0),
    {
        let rows = self.listed(true, results, current);
        let a = self.current_folders_section(true, seqs::views(results.open_folders@));
        let b = self.this_window_section(true, seqs::views(results.project_groups@));
        let ids = seqs::index_filter(self.window_project_groups@.len(), self.unfiled());
        let k = self.lemma_filed_group(g as int);
        assert(self.window_project_groups.len() == self.window_project_groups@.len());
        seqs::lemma_index_filter(self.window_project_groups@.len(), self.unfiled());
        assert(self.unfiled()(g as int));
        assert(ids.contains(g));
        let i = choose|i: int| 0 <= i < ids.len() && ids[i] == g;
        self.lemma_parts(true, results, current);
        let h: int = a.len() as int;
        assert(rows[h + 0] == b[0]);
        assert forall|j: int| h < j <= h + 1 + i implies terms::is_project(#[trigger] rows[j]) by {
            assert(rows[h + (j - h)] == b[j - h]);
        }
        assert(rows[h + (1 + i)] == b[1 + i]);
        (h, h + 1 + i)
    }

    /// For a query, every match of a group whose first assignment names no stored folder has a row
    /// of its own among those of this window.
    pub proof fn loose_matches_are_listed(
        &self,
        results: &MatchResults,
        current: Option<WorkspaceId>,
        n: int,
    ) -> (x: (int, int))
        requires
            0 <= n < results.project_groups@.len(),
            results.project_groups@[n].candidate_id < self.window_project_groups@.len(),
            forall|k: int|
                !#[trigger] self.goes_to_a_folder(
                    results.project_groups@[n].candidate_id as int,
                    k,
                ),
        ensures
            terms::under(self.listed(false, results, current), x.0, x.1),
            self.listed(false, results, current)[x.0] == EntryView::Header("This Window"@),
            self.listed(false, results, current)[x.1] == EntryView::ProjectGroup(
                results.project_groups@[n]@,
            ),
    {
        let rows = self.listed(false, results, current);
        let hits = seqs::views(results.project_groups@);
        let a = self.current_folders_section(false, seqs::views(results.open_folders@));
        let b = self.this_window_section(false, hits);
        let p = self.kept_match();
        let kept = hits.filter(p);
        let g: int = results.project_groups@[n].candidate_id as int;
        let k = self.lemma_filed_group(g);
        assert(hits[n] == results.project_groups@[n]@);
        assert(self.unfiled_group(hits[n].candidate_id as int));
        assert(p(hits[n]));
        hits.lemma_filter_contains(p, n);
        let i = choose|i: int| 0 <= i < kept.len() && kept[i] == hits[n];
        self.lemma_parts(false, results, current);
        let h: int = a.len() as int;
        assert(rows[h + 0] == b[0]);
        assert forall|j: int| h < j <= h + 1 + i implies terms::is_project(#[trigger] rows[j]) by {
            assert(rows[h + (j - h)] == b[j - h]);
        }
        assert(rows[h + (1 + i)] == b[1 + i]);
        (h, h + 1 + i)
    }

    /// The rows of this window are of groups whose first assignment names no stored folder. While
    /// everything is listed, later rows are of later groups, and nothing is highlighted. For a
    /// query, each row is one of the matches, and later rows are of later matches.
    pub proof fn this_window_lists_loose_groups(
        &self,
        empty: bool,
        results: &MatchResults,
        current: Option<WorkspaceId>,
        h: int,
        i: int,
        j: int,
    ) -> (x: (int, int))
        requires
            terms::under(self.listed(empty, results, current), h, i),
            terms::under(self.listed(empty, results, current), h, j),
            self.listed(empty, results, current)[h] == EntryView::Header("This Window"@),
            i < j,
        ensures
            self.listed(empty, results, current)[i] is ProjectGroup,
            self.listed(empty, results, current)[j] is ProjectGroup,
            ({
                let m = self.listed(empty, results, current)[i]->ProjectGroup_0;
                let n = self.listed(empty, results, current)[j]->ProjectGroup_0;
                &&& forall|k: int| !#[trigger] self.goes_to_a_folder(m.candidate_id as int, k)
                &&& forall|k: int| !#[trigger] self.goes_to_a_folder(n.candidate_id as int, k)
                &&& empty ==> m.candidate_id < n.candidate_id < self.window_project_groups@.len()
                &&& empty ==> is_blank(m) && is_blank(n)
                &&& !empty ==> {
                    &&& 0 <= x.0 < x.1 < results.project_groups@.len()
                    &&& results.project_groups@[x.0]@ == m
                    &&& results.project_groups@[x.1]@ == n
                }
            }),
    {
        let rows = self.listed(empty, results, current);
        let hits = seqs::views(results.project_groups@);
        let b = self.this_window_section(empty, hits);
        self.lemma_under_this_window(empty, results, current, h, i);
        self.lemma_under_this_window(empty, results, current, h, j);
        assert(rows[i] == b[i - h]);
        assert(rows[j] == b[j - h]);
        if empty {
            let ids = seqs::index_filter(self.window_project_groups@.len(), self.unfiled());
            assert(self.window_project_groups.len() == self.window_project_groups@.len());
            seqs::lemma_index_filter(self.window_project_groups@.len(), self.unfiled());
            let u = ids[i - h - 1];
            let v = ids[j - h - 1];
            assert(u < v);
            assert(self.unfiled()(u as int));
            assert(self.unfiled()(v as int));
            let k = self.lemma_filed_group(u as int);
            let l = self.lemma_filed_group(v as int);
            (0, 0)
        } else {
            let p = self.kept_match();
            let kept = hits.filter(p);
            let (s, t) = seqs::lemma_filter_came_in_order(hits, p, i - h - 1, j - h - 1);
            let k = self.lemma_filed_group(kept[i - h - 1].candidate_id as int);
            let l = self.lemma_filed_group(kept[j - h - 1].candidate_id as int);
            (s, t)
        }
    }

    /// A lone row of this window is of a group whose first assignment names no stored folder, too;
    /// for a query it is one of the matches.
    pub proof fn this_window_begins_with_a_loose_group(
        &self,
        empty: bool,
        results: &MatchResults,
        current: Option<WorkspaceId>,
        h: int,
        i: int,
    ) -> (x: int)
        requires
            terms::under(self.listed(empty, results, current), h, i),
            self.listed(empty, results, current)[h] == EntryView::Header("This Window"@),
        ensures
            self.listed(empty, results, current)[i] is ProjectGroup,
            ({
                let m = self.listed(empty, results, current)[i]->ProjectGroup_0;
                &&& forall|k: int| !#[trigger] self.goes_to_a_folder(m.candidate_id as int, k)
                &&& empty ==> is_blank(m) && m.candidate_id < self.window_project_groups@.len()
                &&& !empty ==> 0 <= x < results.project_groups@.len()
                    && results.project_groups@[x]@ == m
            }),
    {
        let rows = self.listed(empty, results, current);
        let hits = seqs::views(results.project_groups@);
        let b = self.this_window_section(empty, hits);
        self.lemma_under_this_window(empty, results, current, h, i);
        assert(rows[i] == b[i - h]);
        if empty {
            let ids = seqs::index_filter(self.window_project_groups@.len(), self.unfiled());
            assert(self.window_project_groups.len() == self.window_project_groups@.len());
            seqs::lemma_index_filter(self.window_project_groups@.len(), self.unfiled());
            let u = ids[i - h - 1];
            assert(self.unfiled()(u as int));
            let k = self.lemma_filed_group(u as int);
            0
        } else {
            let p = self.kept_match();
            let kept = hits.filter(p);
            let m = kept[i - h - 1];
            hits.lemma_filter_pred(p, i - h - 1);
            hits.lemma_filter_contains_rev(p, m);
            let k = self.lemma_filed_group(m.candidate_id as int);
            let x = choose|x: int| 0 <= x < hits.len() && hits[x] == m;
            x
        }
    }

    /// The open folders come first, under a title: all of them in order while everything is
    /// listed, or the matches in order. Without any there is neither title nor row, and no such
    /// row stands elsewhere.
    pub proof fn open_folders_come_first(
        &self,
        empty: bool,
        results: &MatchResults,
        current: Option<WorkspaceId>,
        i: int,
    )
        ensures
            ({
                let rows = self.listed(empty, results, current);
                let n: nat = if self.open_folders@.len() == 0 {
                    0
                } else if empty {
                    self.open_folders@.len()
                } else {
                    results.open_folders@.len()
                };
                &&& n > 0 ==> n < rows.len() && rows[0] == EntryView::Header("Current Folders"@)
                &&& 0 <= i < n ==> rows[i + 1] is OpenFolder
                &&& 0 <= i < n && empty ==> rows[i + 1]->index == i
                    && rows[i + 1]->positions.len() == 0
                &&& 0 <= i < n && !empty ==> rows[i + 1]->index
                    == results.open_folders@[i].candidate_id && rows[i + 1]->positions
                    == results.open_folders@[i].positions@
                &&& n < i < rows.len() || (n == 0 && 0 <= i < rows.len()) ==> !(rows[i]
                    is OpenFolder) && rows[i] != EntryView::Header("Current Folders"@)
            }),
    {
        let rows = self.listed(empty, results, current);
        let hits = seqs::views(results.open_folders@);
        let a = self.current_folders_section(empty, hits);
        let b = self.this_window_section(empty, seqs::views(results.project_groups@));
        let c = self.folder_sections(self.folders@.len(), empty, results);
        let d = self.draft_section();
        let e = self.ungrouped_section(empty, results, current);
        let last = self.new_folder_section(empty);
        reveal_strlit("Current Folders");
        reveal_strlit("This Window");
        reveal_strlit("Ungrouped");
        assert("This Window"@.len() != "Current Folders"@.len());
        assert("Ungrouped"@.len() != "Current Folders"@.len());
        self.lemma_parts(empty, results, current);
        assert(self.open_folders@.len() == self.open_folders.len());
        if a.len() > 0 {
            assert(rows[0] == a[0]);
        }
        if 0 <= i && i + 1 < a.len() {
            assert(rows[0 + (i + 1)] == a[i + 1]);
        }
        let two: int = self.front(empty, results).len() as int;
        let three: int = two + c.len();
        let four: int = self.middle(empty, results).len() as int;
        if a.len() <= i < two {
            assert(rows[a.len() + (i - a.len())] == b[i - a.len()]);
        } else if two <= i < three {
            assert(rows[two + (i - two)] == c[i - two]);
            self.lemma_folder_rows(self.folders@.len(), empty, results, i - two);
        } else if three <= i < four {
            assert(rows[three + (i - three)] == d[i - three]);
        } else if four <= i < four + e.len() {
            assert(rows[four + (i - four)] == e[i - four]);
        } else if four + e.len() <= i < rows.len() {
            assert(rows[four + e.len() + (i - four - e.len())] == last[i - four - e.len()]);
        }
    }

    /// Every row below the titles belongs to one: a project stands under the title or the folder
    /// that comes last before it.
    pub proof fn projects_stand_under_something(
        &self,
        empty: bool,
        results: &MatchResults,
        current: Option<WorkspaceId>,
        i: int,
    ) -> (h: int)
        requires
            0 <= i < self.listed(empty, results, current).len(),
            terms::is_project(self.listed(empty, results, current)[i]),
        ensures
            terms::under(self.listed(empty, results, current), h, i),
        decreases i,
    {
        let rows = self.listed(empty, results, current);
        if i == 0 {
            self.lemma_first_row(empty, results, current);
            0
        } else if rows[i - 1] is Header || rows[i - 1] is Folder {
            i - 1
        } else if rows[i - 1] is NewFolder {
            self.new_folder_row_comes_last(empty, results, current);
            assert(false);
            0
        } else {
            let h = self.projects_stand_under_something(empty, results, current, i - 1);
            h
        }
    }

    /// Two assignments with the key of a folder that is listed whole, each of which speaks of a
    /// workspace first, give the folder two rows, even where both speak of one workspace.
    pub proof fn each_assignment_has_a_row(
        &self,
        empty: bool,
        results: &MatchResults,
        current: Option<WorkspaceId>,
        f: int,
        k: int,
        l: int,
        u: usize,
        v: usize,
    ) -> (x: (int, int, int))
        requires
            0 <= f < self.folders@.len(),
            0 <= k < l < self.assignments@.len(),
            self.assignments@[k].folder_id == self.folders@[f].folder_id,
            self.assignments@[l].folder_id == self.folders@[f].folder_id,
            terms::assigns_first(self.assignments@[k], self.workspaces@, u as int),
            terms::assigns_first(self.assignments@[l], self.workspaces@, v as int),
            empty || terms::folder_found(
                self.folders@,
                results.folder_names@,
                self.folders@[f].folder_id,
            ) || (terms::found(results.recents@, u) && terms::found(results.recents@, v)),
        ensures
            terms::under(self.listed(empty, results, current), x.0, x.1),
            terms::under(self.listed(empty, results, current), x.0, x.2),
            self.listed(empty, results, current)[x.0] is Folder,
            self.listed(empty, results, current)[x.0]->folder_id == self.folders@[f].folder_id,
            x.1 != x.2,
            self.listed(empty, results, current)[x.1] is RecentProject,
            self.listed(empty, results, current)[x.2] is RecentProject,
            self.listed(empty, results, current)[x.1]->RecentProject_0.candidate_id == u,
            self.listed(empty, results, current)[x.2]->RecentProject_0.candidate_id == v,
    {
        let folder_id = self.folders@[f].folder_id;
        let all = self.member_ids(folder_id);
        let m = self.membership(folder_id);
        let raw = seqs::index_filter_map(self.assignments@.len(), m);
        let le = listing::by_position();
        let q = listing::shown(
            self.whole_folder(f, empty, results),
            seqs::views(results.recents@),
        );
        self.lemma_assigned_workspace(k, u);
        self.lemma_assigned_workspace(l, v);
        delegate_laws::lemma_found(results.recents@, u);
        delegate_laws::lemma_found(results.recents@, v);
        self.lemma_folder_found(results.folder_names@, folder_id);
        let (a, b) = seqs::lemma_index_filter_map_keeps_order(self.assignments@.len(), m, k, l);
        let (s, t) = seqs::lemma_stable_sort_places(raw, le, a, b);
        assert(all[s] == u && all[t] == v);
        assert(q(all[s]) && q(all[t]));
        let (c, d): (int, int) = if s < t {
            seqs::lemma_filter_keeps_order(all, q, s, t)
        } else {
            let (y, x) = seqs::lemma_filter_keeps_order(all, q, t, s);
            (x, y)
        };
        let (h, i) = self.lemma_visible_row(empty, results, current, f, c);
        let (_, j) = self.lemma_visible_row(empty, results, current, f, d);
        (h, i, j)
    }

    /// For a query, two matches of groups whose first assignments name no stored folder have two
    /// rows, in the order of the matches.
    pub proof fn each_loose_match_has_a_row(
        &self,
        results: &MatchResults,
        current: Option<WorkspaceId>,
        n: int,
        o: int,
    ) -> (x: (int, int, int))
        requires
            0 <= n < o < results.project_groups@.len(),
            results.project_groups@[n].candidate_id < self.window_project_groups@.len(),
            results.project_groups@[o].candidate_id < self.window_project_groups@.len(),
            forall|k: int|
                !#[trigger] self.goes_to_a_folder(
                    results.project_groups@[n].candidate_id as int,
                    k,
                ),
            forall|k: int|
                !#[trigger] self.goes_to_a_folder(
                    results.project_groups@[o].candidate_id as int,
                    k,
                ),
        ensures
            terms::under(self.listed(false, results, current), x.0, x.1),
            terms::under(self.listed(false, results, current), x.0, x.2),
            x.1 < x.2,
            self.listed(false, results, current)[x.0] == EntryView::Header("This Window"@),
            self.listed(false, results, current)[x.1] == EntryView::ProjectGroup(
                results.project_groups@[n]@,
            ),
            self.listed(false, results, current)[x.2] == EntryView::ProjectGroup(
                results.project_groups@[o]@,
            ),
    {
        let rows = self.listed(false, results, current);
        let hits = seqs::views(results.project_groups@);
        let a = self.current_folders_section(false, seqs::views(results.open_folders@));
        let b = self.this_window_section(false, hits);
        let p = self.kept_match();
        let kept = hits.filter(p);
        let k = self.lemma_filed_group(results.project_groups@[n].candidate_id as int);
        let l = self.lemma_filed_group(results.project_groups@[o].candidate_id as int);
        assert(hits[n] == results.project_groups@[n]@);
        assert(hits[o] == results.project_groups@[o]@);
        assert(self.unfiled_group(hits[n].candidate_id as int));
        assert(p(hits[n]) && p(hits[o]));
        let (c, d) = seqs::lemma_filter_keeps_order(hits, p, n, o);
        self.lemma_parts(false, results, current);
        let h: int = a.len() as int;
        assert(rows[h + 0] == b[0]);
        assert forall|j: int| h < j <= h + kept.len() implies terms::is_project(
            #[trigger] rows[j],
        ) by {
            assert(rows[h + (j - h)] == b[j - h]);
        }
        assert(rows[h + (1 + c)] == b[1 + c]);
        assert(rows[h + (1 + d)] == b[1 + d]);
        (h, h + 1 + c, h + 1 + d)
    }

    /// The folders stand behind the open folders and the groups of this window, and before the
    /// ungrouped projects.
    pub proof fn folders_stand_between_the_titles(
        &self,
        empty: bool,
        results: &MatchResults,
        current: Option<WorkspaceId>,
        h: int,
        i: int,
    )
        requires
            0 <= h < self.listed(empty, results, current).len(),
            0 <= i < self.listed(empty, results, current).len(),
            self.listed(empty, results, current)[h] is Header,
            self.listed(empty, results, current)[i] is Folder,
        ensures
            self.listed(empty, results, current)[h] == EntryView::Header("Ungrouped"@) <==> i < h,
    {
        let rows = self.listed(empty, results, current);
        let a = self.current_folders_section(empty, seqs::views(results.open_folders@));
        let b = self.this_window_section(empty, seqs::views(results.project_groups@));
        let e = self.ungrouped_section(empty, results, current);
        let last = self.new_folder_section(empty);
        reveal_strlit("Current Folders");
        reveal_strlit("This Window");
        reveal_strlit("Ungrouped");
        assert("Ungrouped"@.len() != "Current Folders"@.len());
        assert("Ungrouped"@.len() != "This Window"@.len());
        self.lemma_parts(empty, results, current);
        self.lemma_title_at(empty, results, current, h);
        let two: int = self.front(empty, results).len() as int;
        let four: int = self.middle(empty, results).len() as int;
        if i < a.len() {
            assert(rows[0 + i] == a[i]);
        } else if i < two {
            assert(rows[a.len() + (i - a.len())] == b[i - a.len()]);
        } else if four <= i < four + e.len() {
            assert(rows[four + (i - four)] == e[i - four]);
        } else if four + e.len() <= i {
            assert(rows[four + e.len() + (i - four - e.len())] == last[i - four - e.len()]);
        }
    }

    proof fn lemma_first_row(
        &self,
        empty: bool,
        results: &MatchResults,
        current: Option<WorkspaceId>,
    )
        requires
            self.listed(empty, results, current).len() > 0,
        ensures
            !terms::is_project(self.listed(empty, results, current)[0]),
    {
        let rows = self.listed(empty, results, current);
        let a = self.current_folders_section(empty, seqs::views(results.open_folders@));
        let b = self.this_window_section(empty, seqs::views(results.project_groups@));
        self.lemma_parts(empty, results, current);
        self.lemma_no_project_after(empty, results, current);
        if a.len() > 0 {
            assert(rows[0] == a[0]);
        } else if b.len() > 0 {
            assert(rows[(a.len() + 0) as int] == b[0]);
        }
    }
}

} // verus!
