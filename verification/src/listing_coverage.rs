//! Where projects appear: every group of the window does, and every recent workspace that is not
//! filed in unknown folders only.
use crate::delegate::RecentProjectsDelegate;
use crate::listing;
use crate::listing::MatchResults;
use crate::listing_laws;
use crate::model;
use crate::model::{
    EntryView, ProjectFolderAssignment, ProjectGroupKey, RecentWorkspace, WorkspaceId,
};
use crate::seqs;
use vstd::prelude::*;

verus! {

/// Some row is as `p` asks.
pub open spec fn has_row(rows: Seq<EntryView>, p: spec_fn(EntryView) -> bool) -> bool {
    exists|i: int| 0 <= i < rows.len() && p(#[trigger] rows[i])
}

pub open spec fn group_row(g: usize) -> spec_fn(EntryView) -> bool {
    |row: EntryView| listing_laws::shows_group(row, g)
}

pub open spec fn recent_row(id: usize) -> spec_fn(EntryView) -> bool {
    |row: EntryView| listing_laws::shows_recent(row, id)
}

/// Some row shows project group `g`.
pub open spec fn lists_group(rows: Seq<EntryView>, g: usize) -> bool {
    has_row(rows, group_row(g))
}

/// Some row shows recent workspace `id`.
pub open spec fn lists_recent(rows: Seq<EntryView>, id: usize) -> bool {
    has_row(rows, recent_row(id))
}

/// The workspace and the group are one project: the same host and the same paths.
pub open spec fn stands_for(workspace: RecentWorkspace, key: ProjectGroupKey) -> bool {
    &&& model::folder_identity(workspace.host()) == model::folder_identity(key.host)
    &&& workspace.identity_paths@.identity() == key.paths@.identity()
}

proof fn lemma_has_row_concat(
    a: Seq<EntryView>,
    b: Seq<EntryView>,
    p: spec_fn(EntryView) -> bool,
)
    ensures
        has_row(a, p) || has_row(b, p) ==> has_row(a + b, p),
{
    if has_row(a, p) {
        let i = choose|i: int| 0 <= i < a.len() && p(#[trigger] a[i]);
        assert(p((a + b)[i]));
    }
    if has_row(b, p) {
        let i = choose|i: int| 0 <= i < b.len() && p(#[trigger] b[i]);
        assert(p((a + b)[a.len() + i]));
    }
}

impl RecentProjectsDelegate {
    proof fn lemma_folder_row_is_listed(
        &self,
        n: nat,
        f: int,
        empty: bool,
        results: &MatchResults,
        p: spec_fn(EntryView) -> bool,
    )
        requires
            0 <= f < n,
            has_row(self.folder_section(f, empty, results), p),
        ensures
            has_row(self.folder_sections(n, empty, results), p),
        decreases n,
    {
        if f < n - 1 {
            self.lemma_folder_row_is_listed((n - 1) as nat, f, empty, results, p);
        }
        lemma_has_row_concat(
            self.folder_sections((n - 1) as nat, empty, results),
            self.folder_section(n - 1, empty, results),
            p,
        );
    }

    /// A row of a section is a row of the listing.
    proof fn lemma_section_row_is_listed(
        &self,
        empty: bool,
        results: &MatchResults,
        current: Option<WorkspaceId>,
        p: spec_fn(EntryView) -> bool,
    )
        ensures
            has_row(
                self.this_window_section(empty, seqs::views(results.project_groups@)),
                p,
            ) ==> has_row(self.listed(empty, results, current), p),
            has_row(self.folder_sections(self.folders@.len(), empty, results), p) ==> has_row(
                self.listed(empty, results, current),
                p,
            ),
            has_row(self.ungrouped_section(empty, results, current), p) ==> has_row(
                self.listed(empty, results, current),
                p,
            ),
    {
        let a = self.current_folders_section(empty, seqs::views(results.open_folders@));
        let b = self.this_window_section(empty, seqs::views(results.project_groups@));
        let c = self.folder_sections(self.folders@.len(), empty, results);
        let d = self.draft_section();
        let e = self.ungrouped_section(empty, results, current);
        let f = self.new_folder_section(empty);
        lemma_has_row_concat(a, b, p);
        lemma_has_row_concat(a + b, c, p);
        lemma_has_row_concat(a + b + c, d, p);
        lemma_has_row_concat(a + b + c + d, e, p);
        lemma_has_row_concat(a + b + c + d + e, f, p);
    }

    /// An assignment that files a group, and whose project some workspace is, files a workspace
    /// that stands for the group.
    proof fn lemma_filing_workspace(&self, g: int) -> (r: (int, usize))
        requires
            0 <= g < self.window_project_groups@.len(),
            self.group_folder(&self.window_project_groups@[g]) is Some,
            self.represented(&self.window_project_groups@[g]),
        ensures
            0 <= r.0 < self.assignments@.len(),
            self.group_folder(&self.window_project_groups@[g]) == Some(
                self.assignments@[r.0].folder_id,
            ),
            self.assigned_workspace(r.0) == Some(r.1),
            r.1 < self.workspaces@.len(),
            stands_for(self.workspaces@[r.1 as int], self.window_project_groups@[g]),
    {
        let key = self.window_project_groups@[g];
        let identity = model::folder_identity(key.host);
        let paths = key.paths@.identity();
        let q = |a: ProjectFolderAssignment| a.fits(identity, paths);
        assert(self.assignments@.len() == self.assignments.len());
        let k = choose|k: int| seqs::is_first(self.assignments@, q, k);
        assert(seqs::is_first(self.assignments@, q, k));
        let a = self.assignments@[k];
        assert(a.fits(identity, paths));
        let p = Self::speaks_of(a);
        let w = choose|w: int|
            0 <= w < self.workspaces@.len() && model::folder_identity(
                (#[trigger] self.workspaces@[w]).host(),
            ) == identity && self.workspaces@[w].identity_paths@.identity() == paths;
        assert(p(self.workspaces@[w]));
        assert(self.workspaces@.len() == self.workspaces.len());
        seqs::lemma_first_index_exists(self.workspaces@, p, w);
        let id = seqs::first_index(self.workspaces@, p)->0;
        assert(p(self.workspaces@[id as int]));
        (k, id)
    }

    /// A project group that a folder holds itself is listed there, whenever the group or the
    /// folder's name matches.
    pub proof fn filed_groups_are_listed_in_their_folder(
        &self,
        empty: bool,
        results: &MatchResults,
        g: usize,
        f: int,
    )
        requires
            0 <= f < self.folders@.len(),
            g < self.window_project_groups@.len(),
            self.group_folder(&self.window_project_groups@[g as int]) == Some(
                self.folders@[f].folder_id,
            ),
            !self.represented(&self.window_project_groups@[g as int]),
            self.whole_folder(f, empty, results) || model::matched(
                seqs::views(results.project_groups@),
                g,
            ),
        ensures
            lists_group(self.folder_section(f, empty, results), g),
    {
        let id = self.folders@[f].folder_id;
        let p = self.grouped_in(id);
        let q = listing::shown(
            self.whole_folder(f, empty, results),
            seqs::views(results.project_groups@),
        );
        let all = self.folder_groups(id);
        let members = self.visible_members(f, empty, results);
        let groups = self.visible_groups(f, empty, results);
        let hits = listing::highlights(empty, seqs::views(results.project_groups@));
        let rows = listing::group_rows(groups, hits);
        let section = self.folder_section(f, empty, results);
        assert(self.window_project_groups.len() == self.window_project_groups@.len());
        seqs::lemma_index_filter(self.window_project_groups@.len(), p);
        assert(p(g as int));
        assert(all.contains(g));
        let k = choose|k: int| 0 <= k < all.len() && all[k] == g;
        assert(q(all[k]));
        all.lemma_filter_contains(q, k);
        assert(groups.contains(g));
        let i = choose|i: int| 0 <= i < groups.len() && groups[i] == g;
        listing_laws::lemma_match_for(hits, g);
        let at: int = 1 + members.len() + i;
        assert(section[at] == rows[i]);
        assert(group_row(g)(section[at]));
    }

    /// While everything is listed, every project group of this window is: in a row of its own, or
    /// in the row of a recent workspace that is the same project.
    pub proof fn every_group_is_listed(
        &self,
        results: &MatchResults,
        current: Option<WorkspaceId>,
        g: usize,
    )
        requires
            g < self.window_project_groups@.len(),
        ensures
            lists_group(self.listed(true, results, current), g) || exists|id: usize|
                id < self.workspaces@.len() && stands_for(
                    #[trigger] self.workspaces@[id as int],
                    self.window_project_groups@[g as int],
                ) && lists_recent(self.listed(true, results, current), id),
    {
        let key = self.window_project_groups@[g as int];
        if self.filed_group(g as int) && self.represented(&key) {
            let (k, id) = self.lemma_filing_workspace(g as int);
            let f = choose|f: int|
                0 <= f < self.folders@.len() && (#[trigger] self.folders@[f]).folder_id
                    == self.assignments@[k].folder_id;
            self.filed_projects_are_listed_in_their_folder(true, results, k, f, id);
            let section = self.folder_section(f, true, results);
            let i = choose|i: int|
                0 < i < section.len() && listing_laws::shows_recent(#[trigger] section[i], id);
            assert(recent_row(id)(section[i]));
            self.lemma_folder_row_is_listed(
                self.folders@.len(),
                f,
                true,
                results,
                recent_row(id),
            );
            self.lemma_section_row_is_listed(true, results, current, recent_row(id));
            assert(lists_recent(self.listed(true, results, current), id));
            assert(stands_for(self.workspaces@[id as int], key));
        } else {
            self.matching_groups_are_listed(true, results, current, g);
        }
    }

    /// A project group that matches is listed in a row of its own, unless a folder holds it and a
    /// recent workspace stands for it there.
    pub proof fn matching_groups_are_listed(
        &self,
        empty: bool,
        results: &MatchResults,
        current: Option<WorkspaceId>,
        g: usize,
    )
        requires
            g < self.window_project_groups@.len(),
            empty || model::matched(seqs::views(results.project_groups@), g),
            !(self.filed_group(g as int) && self.represented(
                &self.window_project_groups@[g as int],
            )),
        ensures
            lists_group(self.listed(empty, results, current), g),
    {
        let hits = seqs::views(results.project_groups@);
        let p = group_row(g);
        self.lemma_section_row_is_listed(empty, results, current, p);
        if self.filed_group(g as int) {
            let id = self.group_folder(&self.window_project_groups@[g as int])->0;
            let f = choose|f: int|
                0 <= f < self.folders@.len() && (#[trigger] self.folders@[f]).folder_id == id;
            self.filed_groups_are_listed_in_their_folder(empty, results, g, f);
            self.lemma_folder_row_is_listed(self.folders@.len(), f, empty, results, p);
        } else {
            self.unfiled_groups_stay_in_this_window(empty, hits, g);
            let section = self.this_window_section(empty, hits);
            let i = choose|i: int|
                0 < i < section.len() && listing_laws::shows_group(#[trigger] section[i], g);
            assert(p(section[i]));
        }
    }

    /// Some assignment puts workspace `id` in one of the folders.
    pub open spec fn in_known_folder(&self, id: usize) -> bool {
        exists|k: int|
            0 <= k < self.assignments@.len() && #[trigger] self.assigned_workspace(k) == Some(id)
                && self.known_folder(self.assignments@[k].folder_id)
    }

    /// A recent workspace that is not open already, and that is not filed in unknown folders only,
    /// is listed whenever it matches: under a folder that holds it, or among the ungrouped ones.
    pub proof fn matching_projects_are_listed(
        &self,
        empty: bool,
        results: &MatchResults,
        current: Option<WorkspaceId>,
        id: usize,
    )
        requires
            id < self.workspaces@.len(),
            self.candidate(&self.workspaces@[id as int], current),
            self.filed_workspace(id) ==> self.in_known_folder(id),
            empty || model::matched(seqs::views(results.recents@), id),
        ensures
            lists_recent(self.listed(empty, results, current), id),
    {
        let p = recent_row(id);
        self.lemma_section_row_is_listed(empty, results, current, p);
        if self.filed_workspace(id) {
            let k = choose|k: int|
                0 <= k < self.assignments@.len() && #[trigger] self.assigned_workspace(k) == Some(
                    id,
                ) && self.known_folder(self.assignments@[k].folder_id);
            let f = choose|f: int|
                0 <= f < self.folders@.len() && (#[trigger] self.folders@[f]).folder_id
                    == self.assignments@[k].folder_id;
            self.filed_projects_are_listed_in_their_folder(empty, results, k, f, id);
            let section = self.folder_section(f, empty, results);
            let i = choose|i: int|
                0 < i < section.len() && listing_laws::shows_recent(#[trigger] section[i], id);
            assert(p(section[i]));
            self.lemma_folder_row_is_listed(self.folders@.len(), f, empty, results, p);
        } else {
            self.unfiled_projects_are_ungrouped(empty, results, current, id);
            let section = self.ungrouped_section(empty, results, current);
            let i = choose|i: int|
                0 < i < section.len() && listing_laws::shows_recent(#[trigger] section[i], id);
            assert(p(section[i]));
        }
    }
}

} // verus!
