//! What holds of every listing: which section a project appears in, and how sections are laid
//! out.
use crate::delegate::RecentProjectsDelegate;
use crate::listing;
use crate::listing::MatchResults;
use crate::model;
use crate::model::{
    EntryView, MatchView, ProjectFolderId, ProjectGroupKey, ProjectPickerStyle, RecentWorkspace,
    WorkspaceId,
};
use crate::seqs;
use vstd::prelude::*;

verus! {

/// The row shows recent workspace `id`.
pub open spec fn shows_recent(row: EntryView, id: usize) -> bool {
    row matches EntryView::RecentProject(m) && m.candidate_id == id
}

/// The row shows project group `id`.
pub open spec fn shows_group(row: EntryView, id: usize) -> bool {
    row matches EntryView::ProjectGroup(m) && m.candidate_id == id
}

proof fn lemma_last_match(hits: Seq<MatchView>, id: usize)
    ensures
        model::last_match(hits, id) matches Some(m) ==> m.candidate_id == id,
    decreases hits.len(),
{
    if hits.len() > 0 && hits.last().candidate_id != id {
        lemma_last_match(hits.drop_last(), id);
    }
}

/// A row made for a candidate shows that candidate.
pub proof fn lemma_match_for(hits: Seq<MatchView>, id: usize)
    ensures
        model::match_for(hits, id).candidate_id == id,
{
    lemma_last_match(hits, id);
}

proof fn lemma_recent_rows(ids: Seq<usize>, hits: Seq<MatchView>)
    ensures
        forall|i: int|
            0 <= i < ids.len() ==> shows_recent(
                #[trigger] listing::recent_rows(ids, hits)[i],
                ids[i],
            ),
{
    assert forall|i: int| 0 <= i < ids.len() implies shows_recent(
        #[trigger] listing::recent_rows(ids, hits)[i],
        ids[i],
    ) by {
        lemma_match_for(hits, ids[i]);
    }
}

proof fn lemma_group_rows(ids: Seq<usize>, hits: Seq<MatchView>)
    ensures
        forall|i: int|
            0 <= i < ids.len() ==> shows_group(
                #[trigger] listing::group_rows(ids, hits)[i],
                ids[i],
            ),
{
    assert forall|i: int| 0 <= i < ids.len() implies shows_group(
        #[trigger] listing::group_rows(ids, hits)[i],
        ids[i],
    ) by {
        lemma_match_for(hits, ids[i]);
    }
}

impl RecentProjectsDelegate {
    /// A project that a folder holds is not listed among the ungrouped ones.
    pub proof fn filed_projects_are_not_ungrouped(
        &self,
        empty: bool,
        results: &MatchResults,
        current: Option<WorkspaceId>,
        id: usize,
    )
        requires
            self.filed_workspace(id),
        ensures
            forall|i: int|
                0 <= i < self.ungrouped_section(empty, results, current).len() ==> !shows_recent(
                    #[trigger] self.ungrouped_section(empty, results, current)[i],
                    id,
                ),
    {
        let ids = self.ungrouped_ids(empty, results, current);
        let section = self.ungrouped_section(empty, results, current);
        let hits = listing::highlights(empty, seqs::views(results.recents@));
        let p = self.ungrouped(empty, results, current);
        lemma_recent_rows(ids, hits);
        assert(self.workspaces.len() == self.workspaces@.len());
        seqs::lemma_index_filter(self.workspaces@.len(), p);
        assert forall|i: int| 0 <= i < section.len() implies !shows_recent(
            #[trigger] section[i],
            id,
        ) by {
            if i > 0 {
                assert(section[i] == listing::recent_rows(ids, hits)[i - 1]);
                assert(shows_recent(listing::recent_rows(ids, hits)[i - 1], ids[i - 1]));
                assert(p(ids[i - 1] as int));
            }
        }
    }

    /// A project that no folder holds, that is not open and that matches, is listed among the
    /// ungrouped ones.
    pub proof fn unfiled_projects_are_ungrouped(
        &self,
        empty: bool,
        results: &MatchResults,
        current: Option<WorkspaceId>,
        id: usize,
    )
        requires
            id < self.workspaces@.len(),
            !self.filed_workspace(id),
            self.candidate(&self.workspaces@[id as int], current),
            empty || model::matched(seqs::views(results.recents@), id),
        ensures
            exists|i: int|
                0 < i < self.ungrouped_section(empty, results, current).len() && shows_recent(
                    #[trigger] self.ungrouped_section(empty, results, current)[i],
                    id,
                ),
            self.ungrouped_section(empty, results, current)[0] == EntryView::Header("Ungrouped"@),
    {
        let ids = self.ungrouped_ids(empty, results, current);
        let section = self.ungrouped_section(empty, results, current);
        let hits = listing::highlights(empty, seqs::views(results.recents@));
        let p = self.ungrouped(empty, results, current);
        lemma_recent_rows(ids, hits);
        assert(self.workspaces.len() == self.workspaces@.len());
        seqs::lemma_index_filter(self.workspaces@.len(), p);
        assert(p(id as int));
        assert(ids.contains(id));
        let k = choose|k: int| 0 <= k < ids.len() && ids[k] == id;
        assert(shows_recent(listing::recent_rows(ids, hits)[k], ids[k]));
        assert(section[k + 1] == listing::recent_rows(ids, hits)[k]);
    }

    /// Without assignments no project is filed.
    pub proof fn no_assignment_files_nothing(&self, id: usize)
        requires
            self.assignments@.len() == 0,
        ensures
            !self.filed_workspace(id),
    {
    }

    /// A project that an assignment puts in a folder is listed under that folder's row, whenever
    /// the project or the folder's name matches.
    pub proof fn filed_projects_are_listed_in_their_folder(
        &self,
        empty: bool,
        results: &MatchResults,
        k: int,
        f: int,
        id: usize,
    )
        requires
            0 <= k < self.assignments@.len(),
            0 <= f < self.folders@.len(),
            self.assigned_workspace(k) == Some(id),
            self.assignments@[k].folder_id == self.folders@[f].folder_id,
            self.whole_folder(f, empty, results) || model::matched(
                seqs::views(results.recents@),
                id,
            ),
        ensures
            self.folder_section(f, empty, results).len() > 0,
            self.folder_section(f, empty, results)[0] == (EntryView::Folder {
                folder_id: self.folders@[f].folder_id,
                name: self.folders@[f].name@,
            }),
            exists|i: int|
                0 < i < self.folder_section(f, empty, results).len() && shows_recent(
                    #[trigger] self.folder_section(f, empty, results)[i],
                    id,
                ),
    {
        let folder_id = self.folders@[f].folder_id;
        let g = self.membership(folder_id);
        let raw = seqs::index_filter_map(self.assignments@.len(), g);
        let member = (self.assignments@[k].position, id);
        seqs::lemma_index_filter_map(self.assignments@.len(), g);
        assert(g(k) == Some(member));
        assert(raw.contains(member));
        assert(seqs::is_preorder(listing::by_position()));
        seqs::lemma_stable_sort(raw, listing::by_position());
        raw.to_multiset_ensures();
        self.members(folder_id).to_multiset_ensures();
        assert(raw.to_multiset().count(member) > 0);
        assert(self.members(folder_id).to_multiset().count(member) > 0);
        assert(self.members(folder_id).contains(member));
        let m = choose|m: int|
            0 <= m < self.members(folder_id).len() && self.members(folder_id)[m] == member;
        let ids = self.member_ids(folder_id);
        assert(ids[m] == id);
        let p = listing::shown(
            self.whole_folder(f, empty, results),
            seqs::views(results.recents@),
        );
        assert(p(ids[m]));
        ids.lemma_filter_contains(p, m);
        let shown = self.visible_members(f, empty, results);
        assert(shown.contains(id));
        let i = choose|i: int| 0 <= i < shown.len() && shown[i] == id;
        let hits = listing::highlights(empty, seqs::views(results.recents@));
        lemma_recent_rows(shown, hits);
        assert(shows_recent(listing::recent_rows(shown, hits)[i], shown[i]));
        assert(self.folder_section(f, empty, results)[i + 1] == listing::recent_rows(
            shown,
            hits,
        )[i]);
    }

    /// A folder is hidden when neither its name nor anything in it matches.
    pub proof fn folders_without_matches_are_hidden(
        &self,
        f: int,
        empty: bool,
        results: &MatchResults,
    )
        requires
            0 <= f < self.folders@.len(),
            !self.whole_folder(f, empty, results),
            forall|i: int|
                0 <= i < self.member_ids(self.folders@[f].folder_id).len() ==> !model::matched(
                    seqs::views(results.recents@),
                    #[trigger] self.member_ids(self.folders@[f].folder_id)[i],
                ),
            forall|i: int|
                0 <= i < self.folder_groups(self.folders@[f].folder_id).len() ==> !model::matched(
                    seqs::views(results.project_groups@),
                    #[trigger] self.folder_groups(self.folders@[f].folder_id)[i],
                ),
        ensures
            self.folder_section(f, empty, results) == Seq::<EntryView>::empty(),
    {
        let folder_id = self.folders@[f].folder_id;
        let p = listing::shown(false, seqs::views(results.recents@));
        let q = listing::shown(false, seqs::views(results.project_groups@));
        let members = self.visible_members(f, empty, results);
        let groups = self.visible_groups(f, empty, results);
        if members.len() > 0 {
            self.member_ids(folder_id).lemma_filter_pred(p, 0);
            assert(members.contains(members[0]));
            self.member_ids(folder_id).lemma_filter_contains_rev(p, members[0]);
        }
        if groups.len() > 0 {
            self.folder_groups(folder_id).lemma_filter_pred(q, 0);
            assert(groups.contains(groups[0]));
            self.folder_groups(folder_id).lemma_filter_contains_rev(q, groups[0]);
        }
    }

    /// A project that is open already, in the workspace, in the window or as a folder, is not
    /// listed among the ungrouped ones.
    pub proof fn open_projects_are_not_ungrouped(
        &self,
        empty: bool,
        results: &MatchResults,
        current: Option<WorkspaceId>,
        id: usize,
    )
        requires
            id < self.workspaces@.len(),
            current == Some(self.workspaces@[id as int].workspace_id) || self.in_window(
                &self.workspaces@[id as int],
            ) || self.open_as_folder(&self.workspaces@[id as int]),
        ensures
            forall|i: int|
                0 <= i < self.ungrouped_section(empty, results, current).len() ==> !shows_recent(
                    #[trigger] self.ungrouped_section(empty, results, current)[i],
                    id,
                ),
    {
        let ids = self.ungrouped_ids(empty, results, current);
        let section = self.ungrouped_section(empty, results, current);
        let hits = listing::highlights(empty, seqs::views(results.recents@));
        let p = self.ungrouped(empty, results, current);
        lemma_recent_rows(ids, hits);
        assert(self.workspaces@.len() == self.workspaces.len());
        seqs::lemma_index_filter(self.workspaces@.len(), p);
        assert forall|i: int| 0 <= i < section.len() implies !shows_recent(
            #[trigger] section[i],
            id,
        ) by {
            if i > 0 {
                assert(section[i] == listing::recent_rows(ids, hits)[i - 1]);
                assert(p(ids[i - 1] as int));
            }
        }
    }

    /// A project group that no folder holds is listed under "This Window" whenever it matches.
    pub proof fn unfiled_groups_stay_in_this_window(
        &self,
        empty: bool,
        hits: Seq<MatchView>,
        g: usize,
    )
        requires
            self.unfiled_group(g as int),
            empty || model::matched(hits, g),
        ensures
            self.this_window_section(empty, hits).len() > 0,
            self.this_window_section(empty, hits)[0] == EntryView::Header("This Window"@),
            exists|i: int|
                0 < i < self.this_window_section(empty, hits).len() && shows_group(
                    #[trigger] self.this_window_section(empty, hits)[i],
                    g,
                ),
    {
        let section = self.this_window_section(empty, hits);
        if empty {
            let p = self.unfiled();
            let ids = seqs::index_filter(self.window_project_groups@.len(), p);
            assert(self.window_project_groups@.len() == self.window_project_groups.len());
            seqs::lemma_index_filter(self.window_project_groups@.len(), p);
            lemma_group_rows(ids, Seq::empty());
            assert(p(g as int));
            assert(ids.contains(g));
            let k = choose|k: int| 0 <= k < ids.len() && ids[k] == g;
            let rows = listing::group_rows(ids, Seq::empty());
            assert(shows_group(rows[k], ids[k]));
            assert(section[k + 1] == rows[k]);
        } else {
            let p = self.kept_match();
            let kept = hits.filter(p);
            let h = choose|h: int| 0 <= h < hits.len() && (#[trigger] hits[h]).candidate_id == g;
            assert(p(hits[h]));
            assert(self.unfiled_match(hits));
            hits.lemma_filter_contains(p, h);
            let k = choose|k: int| 0 <= k < kept.len() && kept[k] == hits[h];
            assert(section[k + 1] == EntryView::ProjectGroup(kept[k]));
        }
    }

    /// A project group that a folder holds is not listed under "This Window".
    pub proof fn filed_groups_leave_this_window(
        &self,
        empty: bool,
        hits: Seq<MatchView>,
        g: usize,
    )
        requires
            self.filed_group(g as int),
        ensures
            forall|i: int|
                0 <= i < self.this_window_section(empty, hits).len() ==> !shows_group(
                    #[trigger] self.this_window_section(empty, hits)[i],
                    g,
                ),
    {
        let section = self.this_window_section(empty, hits);
        if empty {
            let ids = seqs::index_filter(self.window_project_groups@.len(), self.unfiled());
            let p = self.unfiled();
            lemma_group_rows(ids, Seq::empty());
            assert(self.window_project_groups.len() == self.window_project_groups@.len());
            seqs::lemma_index_filter(self.window_project_groups@.len(), p);
            assert forall|i: int| 0 <= i < section.len() implies !shows_group(
                #[trigger] section[i],
                g,
            ) by {
                if i > 0 {
                    assert(section[i] == listing::group_rows(ids, Seq::empty())[i - 1]);
                    assert(shows_group(
                        listing::group_rows(ids, Seq::empty())[i - 1],
                        ids[i - 1],
                    ));
                    assert(p(ids[i - 1] as int));
                }
            }
        } else {
            let p = self.kept_match();
            let kept = hits.filter(p);
            assert forall|i: int| 0 <= i < section.len() implies !shows_group(
                #[trigger] section[i],
                g,
            ) by {
                if i > 0 {
                    assert(section[i] == EntryView::ProjectGroup(kept[i - 1]));
                    hits.lemma_filter_pred(p, i - 1);
                    assert(p(kept[i - 1]));
                }
            }
        }
    }
}

/// Every header is followed by a row that can be selected.
pub open spec fn headed(rows: Seq<EntryView>) -> bool {
    forall|i: int|
        0 <= i < rows.len() && !(#[trigger] rows[i]).selectable() ==> i + 1 < rows.len()
            && rows[i + 1].selectable()
}

proof fn lemma_headed_concat(a: Seq<EntryView>, b: Seq<EntryView>)
    requires
        headed(a),
        headed(b),
    ensures
        headed(a + b),
{
    assert forall|i: int| 0 <= i < (a + b).len() && !(#[trigger] (a + b)[i]).selectable() implies i
        + 1 < (a + b).len() && (a + b)[i + 1].selectable() by {
        if i < a.len() {
            assert(!a[i].selectable());
            assert((a + b)[i + 1] == a[i + 1]);
        } else {
            assert(!b[i - a.len()].selectable());
            assert((a + b)[i + 1] == b[i - a.len() + 1]);
        }
    }
}

/// Every row refers to something that exists.
pub open spec fn resolved(d: &RecentProjectsDelegate, rows: Seq<EntryView>) -> bool {
    forall|i: int|
        0 <= i < rows.len() ==> match #[trigger] rows[i] {
            EntryView::OpenFolder { index, .. } => index < d.open_folders@.len(),
            EntryView::ProjectGroup(m) => m.candidate_id < d.window_project_groups@.len(),
            EntryView::RecentProject(m) => m.candidate_id < d.workspaces@.len(),
            _ => true,
        }
}

proof fn lemma_resolved_concat(d: &RecentProjectsDelegate, a: Seq<EntryView>, b: Seq<EntryView>)
    requires
        resolved(d, a),
        resolved(d, b),
    ensures
        resolved(d, a + b),
{
    assert forall|i: int| 0 <= i < (a + b).len() implies match #[trigger] (a + b)[i] {
        EntryView::OpenFolder { index, .. } => index < d.open_folders@.len(),
        EntryView::ProjectGroup(m) => m.candidate_id < d.window_project_groups@.len(),
        EntryView::RecentProject(m) => m.candidate_id < d.workspaces@.len(),
        _ => true,
    } by {
        if i < a.len() {
            assert((a + b)[i] == a[i]);
        } else {
            assert((a + b)[i] == b[i - a.len()]);
        }
    }
}

/// The matches name candidates that were asked for.
pub open spec fn in_range(hits: Seq<MatchView>, n: nat) -> bool {
    forall|i: int| 0 <= i < hits.len() ==> (#[trigger] hits[i]).candidate_id < n
}

impl MatchResults {
    pub open spec fn answers(&self, d: &RecentProjectsDelegate) -> bool {
        &&& in_range(seqs::views(self.open_folders@), d.open_folders@.len())
        &&& in_range(seqs::views(self.project_groups@), d.window_project_groups@.len())
        &&& in_range(seqs::views(self.recents@), d.workspaces@.len())
        &&& in_range(seqs::views(self.folder_names@), d.folders@.len())
    }
}

/// The number of rows that show project group `g`.
pub open spec fn group_count(rows: Seq<EntryView>, g: usize) -> nat {
    rows.filter(|row: EntryView| shows_group(row, g)).len()
}

proof fn lemma_group_count_concat(a: Seq<EntryView>, b: Seq<EntryView>, g: usize)
    ensures
        group_count(a + b, g) == group_count(a, g) + group_count(b, g),
{
    Seq::filter_distributes_over_add(a, b, |row: EntryView| shows_group(row, g));
}

proof fn lemma_group_count_zero(rows: Seq<EntryView>, g: usize)
    requires
        forall|i: int| 0 <= i < rows.len() ==> !shows_group(#[trigger] rows[i], g),
    ensures
        group_count(rows, g) == 0,
{
    let p = |row: EntryView| shows_group(row, g);
    if rows.filter(p).len() > 0 {
        rows.lemma_filter_pred(p, 0);
        let first = rows.filter(p)[0];
        assert(rows.filter(p).contains(first));
        rows.lemma_filter_contains_rev(p, first);
        let i = choose|i: int| 0 <= i < rows.len() && rows[i] == first;
        assert(shows_group(rows[i], g));
    }
}

proof fn lemma_group_count_once(rows: Seq<EntryView>, g: usize, at: int)
    requires
        0 <= at < rows.len(),
        shows_group(rows[at], g),
        forall|i: int| 0 <= i < rows.len() && i != at ==> !shows_group(#[trigger] rows[i], g),
    ensures
        group_count(rows, g) == 1,
{
    let p = |row: EntryView| shows_group(row, g);
    let a = rows.take(at);
    let b = rows.skip(at + 1);
    let one = seq![rows[at]];
    assert(rows =~= a + one + b);
    lemma_group_count_concat(a + one, b, g);
    lemma_group_count_concat(a, one, g);
    lemma_group_count_zero(a, g);
    lemma_group_count_zero(b, g);
    reveal_with_fuel(Seq::filter, 2);
    assert(one.drop_last().filter(p) =~= Seq::<EntryView>::empty());
    assert(one.filter(p) =~= one);
}

/// Folders have distinct keys.
pub open spec fn distinct_folders(d: &RecentProjectsDelegate) -> bool {
    forall|i: int, j: int|
        0 <= i < j < d.folders@.len() ==> (#[trigger] d.folders@[i]).folder_id != (
        #[trigger] d.folders@[j]).folder_id
}

impl RecentProjectsDelegate {
    proof fn lemma_folder_section_headed(&self, f: int, empty: bool, results: &MatchResults)
        ensures
            headed(self.folder_section(f, empty, results)),
    {
    }

    proof fn lemma_folder_sections_headed(&self, n: nat, empty: bool, results: &MatchResults)
        ensures
            headed(self.folder_sections(n, empty, results)),
        decreases n,
    {
        if n > 0 {
            self.lemma_folder_sections_headed((n - 1) as nat, empty, results);
            self.lemma_folder_section_headed(n - 1, empty, results);
            lemma_headed_concat(
                self.folder_sections((n - 1) as nat, empty, results),
                self.folder_section(n - 1, empty, results),
            );
        }
    }

    pub(crate) proof fn lemma_this_window_headed(&self, empty: bool, hits: Seq<MatchView>)
        ensures
            headed(self.this_window_section(empty, hits)),
    {
        if !empty && self.unfiled_match(hits) {
            let p = self.kept_match();
            let k = choose|k: int|
                0 <= k < hits.len() && self.unfiled_group(
                    (#[trigger] hits[k]).candidate_id as int,
                );
            assert(p(hits[k]));
            hits.lemma_filter_contains(p, k);
            assert(hits.filter(p).len() > 0);
        }
    }

    /// No header stands alone: each is followed by a row that can be selected.
    pub proof fn headers_head_something(
        &self,
        empty: bool,
        results: &MatchResults,
        current: Option<WorkspaceId>,
    )
        ensures
            headed(self.listed(empty, results, current)),
    {
        let a = self.current_folders_section(empty, seqs::views(results.open_folders@));
        let b = self.this_window_section(empty, seqs::views(results.project_groups@));
        let c = self.folder_sections(self.folders@.len(), empty, results);
        let d = self.draft_section();
        let e = self.ungrouped_section(empty, results, current);
        let f = self.new_folder_section(empty);
        self.lemma_this_window_headed(empty, seqs::views(results.project_groups@));
        self.lemma_folder_sections_headed(self.folders@.len(), empty, results);
        lemma_headed_concat(a, b);
        lemma_headed_concat(a + b, c);
        lemma_headed_concat(a + b + c, d);
        lemma_headed_concat(a + b + c + d, e);
        lemma_headed_concat(a + b + c + d + e, f);
    }

    /// A selection that snaps to the first row below a header lands on a row that can be
    /// selected, whenever the list has rows.
    pub proof fn snapping_selects(
        &self,
        empty: bool,
        results: &MatchResults,
        current: Option<WorkspaceId>,
    )
        requires
            0 < self.listed(empty, results, current).len() <= usize::MAX,
        ensures
            Self::snapped(self.listed(empty, results, current)) < self.listed(
                empty,
                results,
                current,
            ).len(),
            self.listed(empty, results, current)[Self::snapped(
                self.listed(empty, results, current),
            ) as int].selectable(),
    {
        let rows = self.listed(empty, results, current);
        let p = |e: EntryView| e.selectable();
        self.headers_head_something(empty, results, current);
        let i: int = if rows[0].selectable() {
            0
        } else {
            1
        };
        assert(p(rows[i]));
        seqs::lemma_first_index_exists(rows, p, i);
    }

    proof fn lemma_recent_rows_resolved(&self, ids: Seq<usize>, hits: Seq<MatchView>)
        requires
            forall|i: int| 0 <= i < ids.len() ==> (#[trigger] ids[i]) < self.workspaces@.len(),
        ensures
            resolved(self, listing::recent_rows(ids, hits)),
    {
        lemma_recent_rows(ids, hits);
        let rows = listing::recent_rows(ids, hits);
        assert forall|i: int| 0 <= i < rows.len() implies (#[trigger] rows[i] matches
            EntryView::RecentProject(m) && m.candidate_id < self.workspaces@.len()) by {
            assert(shows_recent(rows[i], ids[i]));
        }
    }

    proof fn lemma_group_rows_resolved(&self, ids: Seq<usize>, hits: Seq<MatchView>)
        requires
            forall|i: int|
                0 <= i < ids.len() ==> (#[trigger] ids[i]) < self.window_project_groups@.len(),
        ensures
            resolved(self, listing::group_rows(ids, hits)),
    {
        lemma_group_rows(ids, hits);
        let rows = listing::group_rows(ids, hits);
        assert forall|i: int| 0 <= i < rows.len() implies (#[trigger] rows[i] matches
            EntryView::ProjectGroup(m) && m.candidate_id < self.window_project_groups@.len()) by {
            assert(shows_group(rows[i], ids[i]));
        }
    }

    proof fn lemma_member_ids_in_range(&self, folder_id: ProjectFolderId)
        ensures
            forall|i: int|
                0 <= i < self.member_ids(folder_id).len() ==> (#[trigger] self.member_ids(
                    folder_id,
                )[i]) < self.workspaces@.len(),
    {
        let g = self.membership(folder_id);
        let raw = seqs::index_filter_map(self.assignments@.len(), g);
        let sorted = self.members(folder_id);
        seqs::lemma_index_filter_map(self.assignments@.len(), g);
        assert(seqs::is_preorder(listing::by_position()));
        seqs::lemma_stable_sort(raw, listing::by_position());
        raw.to_multiset_ensures();
        sorted.to_multiset_ensures();
        assert forall|i: int| 0 <= i < sorted.len() implies (#[trigger] sorted[i]).1
            < self.workspaces@.len() by {
            assert(sorted.contains(sorted[i]));
            assert(sorted.to_multiset().count(sorted[i]) > 0);
            assert(raw.contains(sorted[i]));
            let j = choose|j: int| 0 <= j < raw.len() && raw[j] == sorted[i];
            let k = choose|k: int| 0 <= k < self.assignments@.len() && #[trigger] g(k) == Some(raw[j]);
            let p = Self::speaks_of(self.assignments@[k]);
            assert(self.assigned_workspace(k) == Some(sorted[i].1));
            let c = choose|c: int| seqs::is_first(self.workspaces@, p, c);
            assert(seqs::is_first(self.workspaces@, p, c));
            assert(self.workspaces.len() == self.workspaces@.len());
        }
        assert forall|i: int| 0 <= i < self.member_ids(folder_id).len() implies (
        #[trigger] self.member_ids(folder_id)[i]) < self.workspaces@.len() by {
            assert(self.member_ids(folder_id)[i] == sorted[i].1);
        }
    }

    proof fn lemma_folder_section_resolved(&self, f: int, empty: bool, results: &MatchResults)
        requires
            0 <= f < self.folders@.len(),
        ensures
            resolved(self, self.folder_section(f, empty, results)),
    {
        let folder_id = self.folders@[f].folder_id;
        let members = self.visible_members(f, empty, results);
        let groups = self.visible_groups(f, empty, results);
        let p = listing::shown(
            self.whole_folder(f, empty, results),
            seqs::views(results.recents@),
        );
        let q = listing::shown(
            self.whole_folder(f, empty, results),
            seqs::views(results.project_groups@),
        );
        self.lemma_member_ids_in_range(folder_id);
        assert forall|i: int| 0 <= i < members.len() implies (#[trigger] members[i])
            < self.workspaces@.len() by {
            assert(members.contains(members[i]));
            self.member_ids(folder_id).lemma_filter_contains_rev(p, members[i]);
        }
        assert(self.window_project_groups.len() == self.window_project_groups@.len());
        seqs::lemma_index_filter(self.window_project_groups@.len(), self.grouped_in(folder_id));
        assert forall|i: int| 0 <= i < groups.len() implies (#[trigger] groups[i])
            < self.window_project_groups@.len() by {
            assert(groups.contains(groups[i]));
            self.folder_groups(folder_id).lemma_filter_contains_rev(q, groups[i]);
        }
        let row = seq![
            EntryView::Folder {
                folder_id: self.folders@[f].folder_id,
                name: self.folders@[f].name@,
            },
        ];
        let a = listing::recent_rows(
            members,
            listing::highlights(empty, seqs::views(results.recents@)),
        );
        let b = listing::group_rows(
            groups,
            listing::highlights(empty, seqs::views(results.project_groups@)),
        );
        self.lemma_recent_rows_resolved(
            members,
            listing::highlights(empty, seqs::views(results.recents@)),
        );
        self.lemma_group_rows_resolved(
            groups,
            listing::highlights(empty, seqs::views(results.project_groups@)),
        );
        lemma_resolved_concat(self, row, a);
        lemma_resolved_concat(self, row + a, b);
    }

    proof fn lemma_folder_sections_resolved(&self, n: nat, empty: bool, results: &MatchResults)
        requires
            n <= self.folders@.len(),
        ensures
            resolved(self, self.folder_sections(n, empty, results)),
        decreases n,
    {
        if n > 0 {
            self.lemma_folder_sections_resolved((n - 1) as nat, empty, results);
            self.lemma_folder_section_resolved(n - 1, empty, results);
            lemma_resolved_concat(
                self,
                self.folder_sections((n - 1) as nat, empty, results),
                self.folder_section(n - 1, empty, results),
            );
        }
    }

    /// If the matches name candidates that were asked for, every listed row refers to a folder,
    /// a group or a workspace that exists.
    pub proof fn listed_rows_exist(
        &self,
        empty: bool,
        results: &MatchResults,
        current: Option<WorkspaceId>,
    )
        requires
            results.answers(self),
        ensures
            resolved(self, self.listed(empty, results, current)),
    {
        let open = seqs::views(results.open_folders@);
        let hits = seqs::views(results.project_groups@);
        let a = self.current_folders_section(empty, open);
        let b = self.this_window_section(empty, hits);
        let c = self.folder_sections(self.folders@.len(), empty, results);
        let d = self.draft_section();
        let e = self.ungrouped_section(empty, results, current);
        let f = self.new_folder_section(empty);
        assert(self.open_folders.len() == self.open_folders@.len());
        assert(self.window_project_groups.len() == self.window_project_groups@.len());
        assert(self.workspaces.len() == self.workspaces@.len());
        assert(resolved(self, a));
        let header = seq![EntryView::Header("This Window"@)];
        if empty {
            let ids = seqs::index_filter(self.window_project_groups@.len(), self.unfiled());
            seqs::lemma_index_filter(self.window_project_groups@.len(), self.unfiled());
            self.lemma_group_rows_resolved(ids, Seq::empty());
            lemma_resolved_concat(self, header, listing::group_rows(ids, Seq::empty()));
        } else {
            let p = self.kept_match();
            let kept = hits.filter(p);
            assert forall|i: int| 0 <= i < kept.len() implies (#[trigger] kept[i]).candidate_id
                < self.window_project_groups@.len() by {
                assert(kept.contains(kept[i]));
                hits.lemma_filter_contains_rev(p, kept[i]);
                let j = choose|j: int| 0 <= j < hits.len() && hits[j] == kept[i];
                assert(hits[j].candidate_id < self.window_project_groups@.len());
            }
            let rows = Seq::new(kept.len(), |i: int| EntryView::ProjectGroup(kept[i]));
            assert(resolved(self, rows));
            lemma_resolved_concat(self, header, rows);
        }
        assert(resolved(self, b));
        self.lemma_folder_sections_resolved(self.folders@.len(), empty, results);
        let ids = self.ungrouped_ids(empty, results, current);
        let recents = listing::highlights(empty, seqs::views(results.recents@));
        seqs::lemma_index_filter(
            self.workspaces@.len(),
            self.ungrouped(empty, results, current),
        );
        self.lemma_recent_rows_resolved(ids, recents);
        lemma_resolved_concat(
            self,
            seq![EntryView::Header("Ungrouped"@)],
            listing::recent_rows(ids, recents),
        );
        lemma_resolved_concat(self, a, b);
        lemma_resolved_concat(self, a + b, c);
        lemma_resolved_concat(self, a + b + c, d);
        lemma_resolved_concat(self, a + b + c + d, e);
        lemma_resolved_concat(self, a + b + c + d + e, f);
    }

    /// The row that creates a folder is listed in the modal only, while everything is listed and
    /// no folder is being created; then it is the last row.
    pub proof fn new_folder_row_comes_last(
        &self,
        empty: bool,
        results: &MatchResults,
        current: Option<WorkspaceId>,
    )
        ensures
            self.style == ProjectPickerStyle::Modal && empty && !self.creating() ==> self.listed(
                empty,
                results,
                current,
            ).len() > 0 && self.listed(empty, results, current).last() == EntryView::NewFolder,
            forall|i: int|
                0 <= i < self.listed(empty, results, current).len() && #[trigger] self.listed(
                    empty,
                    results,
                    current,
                )[i] == EntryView::NewFolder ==> {
                    &&& self.style == ProjectPickerStyle::Modal
                    &&& empty
                    &&& !self.creating()
                    &&& i == self.listed(empty, results, current).len() - 1
                },
    {
        let rows = self.listed(empty, results, current);
        let rest = self.current_folders_section(empty, seqs::views(results.open_folders@))
            + self.this_window_section(empty, seqs::views(results.project_groups@))
            + self.folder_sections(self.folders@.len(), empty, results) + self.draft_section()
            + self.ungrouped_section(empty, results, current);
        assert forall|i: int| 0 <= i < rows.len() && #[trigger] rows[i]
            == EntryView::NewFolder implies i == rest.len() by {
            if i < rest.len() {
                assert(rows[i] == rest[i]);
                self.lemma_rest_has_no_new_folder(empty, results, current, i);
            }
        }
    }

    /// Folder sections hold rows of folders, workspaces and groups only.
    pub(crate) proof fn lemma_folder_sections_rows(&self, n: nat, empty: bool, results: &MatchResults)
        ensures
            forall|i: int|
                0 <= i < self.folder_sections(n, empty, results).len() ==> {
                    let row = #[trigger] self.folder_sections(n, empty, results)[i];
                    row is Folder || row is RecentProject || row is ProjectGroup
                },
        decreases n,
    {
        if n > 0 {
            self.lemma_folder_sections_rows((n - 1) as nat, empty, results);
            let a = self.folder_sections((n - 1) as nat, empty, results);
            let b = self.folder_section(n - 1, empty, results);
            assert forall|i: int| 0 <= i < (a + b).len() implies ({
                let row = #[trigger] (a + b)[i];
                row is Folder || row is RecentProject || row is ProjectGroup
            }) by {
                if i < a.len() {
                    assert((a + b)[i] == a[i]);
                } else {
                    assert((a + b)[i] == b[i - a.len()]);
                }
            }
        }
    }

    proof fn lemma_rest_has_no_new_folder(
        &self,
        empty: bool,
        results: &MatchResults,
        current: Option<WorkspaceId>,
        i: int,
    )
        requires
            0 <= i < (self.current_folders_section(empty, seqs::views(results.open_folders@))
                + self.this_window_section(empty, seqs::views(results.project_groups@))
                + self.folder_sections(self.folders@.len(), empty, results) + self.draft_section()
                + self.ungrouped_section(empty, results, current)).len(),
        ensures
            (self.current_folders_section(empty, seqs::views(results.open_folders@))
                + self.this_window_section(empty, seqs::views(results.project_groups@))
                + self.folder_sections(self.folders@.len(), empty, results) + self.draft_section()
                + self.ungrouped_section(empty, results, current))[i] != EntryView::NewFolder,
    {
        let a = self.current_folders_section(empty, seqs::views(results.open_folders@));
        let b = self.this_window_section(empty, seqs::views(results.project_groups@));
        let c = self.folder_sections(self.folders@.len(), empty, results);
        let d = self.draft_section();
        let e = self.ungrouped_section(empty, results, current);
        self.lemma_folder_sections_rows(self.folders@.len(), empty, results);
        let all = a + b + c + d + e;
        let ab: int = (a.len() + b.len()) as int;
        let abc: int = ab + c.len();
        let abcd: int = abc + d.len();
        if i < a.len() {
            assert(all[i] == a[i]);
        } else if i < ab {
            assert(all[i] == b[i - a.len()]);
        } else if i < abc {
            assert(all[i] == c[i - ab]);
        } else if i < abcd {
            assert(all[i] == d[i - abc]);
        } else {
            assert(all[i] == e[i - abcd]);
        }
    }

    /// Folders come before the ungrouped projects.
    pub proof fn folders_precede_ungrouped(
        &self,
        empty: bool,
        results: &MatchResults,
        current: Option<WorkspaceId>,
        i: int,
        j: int,
    )
        requires
            0 <= i < self.listed(empty, results, current).len(),
            0 <= j < self.listed(empty, results, current).len(),
            self.listed(empty, results, current)[i] is Folder,
            self.listed(empty, results, current)[j] == EntryView::Header("Ungrouped"@),
        ensures
            i < j,
    {
        reveal_strlit("Ungrouped");
        reveal_strlit("Current Folders");
        reveal_strlit("This Window");
        let a = self.current_folders_section(empty, seqs::views(results.open_folders@));
        let b = self.this_window_section(empty, seqs::views(results.project_groups@));
        let c = self.folder_sections(self.folders@.len(), empty, results);
        let d = self.draft_section();
        let e = self.ungrouped_section(empty, results, current);
        let f = self.new_folder_section(empty);
        self.lemma_folder_sections_rows(self.folders@.len(), empty, results);
        let all = self.listed(empty, results, current);
        let ab: int = (a.len() + b.len()) as int;
        let abc: int = ab + c.len();
        let abcd: int = abc + d.len();
        let abcde: int = abcd + e.len();
        assert("Ungrouped"@.len() != "Current Folders"@.len());
        assert("Ungrouped"@.len() != "This Window"@.len());
        assert(j >= abcd) by {
            if j < a.len() {
                assert(all[j] == a[j]);
            } else if j < ab {
                assert(all[j] == b[j - a.len()]);
            } else if j < abc {
                assert(all[j] == c[j - ab]);
            } else if j < abcd {
                assert(all[j] == d[j - abc]);
            }
        }
        assert(i < abcd) by {
            if i >= abcde {
                assert(all[i] == f[i - abcde]);
            } else if i >= abcd {
                assert(all[i] == e[i - abcd]);
            }
        }
    }

    proof fn lemma_count_in_folder(
        &self,
        f: int,
        results: &MatchResults,
        g: usize,
        folder_id: ProjectFolderId,
    )
        requires
            0 <= f < self.folders@.len(),
            g < self.window_project_groups@.len(),
            self.group_folder(&self.window_project_groups@[g as int]) == Some(folder_id),
            !self.represented(&self.window_project_groups@[g as int]),
        ensures
            group_count(self.folder_section(f, true, results), g) == (if self.folders@[f].folder_id
                == folder_id {
                1nat
            } else {
                0nat
            }),
    {
        let id = self.folders@[f].folder_id;
        let section = self.folder_section(f, true, results);
        let members = self.visible_members(f, true, results);
        let groups = self.visible_groups(f, true, results);
        let q = listing::shown(true, seqs::views(results.project_groups@));
        let p = self.grouped_in(id);
        let all = self.folder_groups(id);
        assert(self.window_project_groups.len() == self.window_project_groups@.len());
        seqs::lemma_index_filter(self.window_project_groups@.len(), p);
        lemma_filter_all(all, q);
        assert(groups == all);
        let n: int = (1 + members.len()) as int;
        let rows = listing::group_rows(groups, Seq::empty());
        lemma_group_rows(groups, Seq::empty());
        assert forall|i: int| n <= i < section.len() implies shows_group(
            #[trigger] section[i],
            groups[i - n],
        ) by {
            assert(section[i] == rows[i - n]);
            assert(shows_group(rows[i - n], groups[i - n]));
        }
        assert forall|i: int| 0 <= i < n implies !(#[trigger] section[i] is ProjectGroup) by {}
        if id == folder_id {
            assert(p(g as int));
            assert(all.contains(g));
            let k = choose|k: int| 0 <= k < all.len() && all[k] == g;
            assert(shows_group(section[n + k], groups[k]));
            assert forall|i: int| 0 <= i < section.len() && i != n + k implies !shows_group(
                #[trigger] section[i],
                g,
            ) by {
                if i >= n {
                    assert(shows_group(section[i], groups[i - n]));
                    assert(groups[i - n] != groups[k]);
                }
            }
            lemma_group_count_once(section, g, n + k);
        } else {
            assert forall|i: int| 0 <= i < section.len() implies !shows_group(
                #[trigger] section[i],
                g,
            ) by {
                if i >= n {
                    assert(shows_group(section[i], groups[i - n]));
                    assert(p(groups[i - n] as int));
                }
            }
            lemma_group_count_zero(section, g);
        }
    }

    proof fn lemma_count_in_folders(
        &self,
        n: nat,
        results: &MatchResults,
        g: usize,
        f: int,
    )
        requires
            n <= self.folders@.len(),
            0 <= f < self.folders@.len(),
            distinct_folders(self),
            g < self.window_project_groups@.len(),
            self.group_folder(&self.window_project_groups@[g as int]) == Some(
                self.folders@[f].folder_id,
            ),
            !self.represented(&self.window_project_groups@[g as int]),
        ensures
            group_count(self.folder_sections(n, true, results), g) == (if f < n {
                1nat
            } else {
                0nat
            }),
        decreases n,
    {
        let folder_id = self.folders@[f].folder_id;
        if n == 0 {
            lemma_group_count_zero(self.folder_sections(0, true, results), g);
        } else {
            self.lemma_count_in_folders((n - 1) as nat, results, g, f);
            self.lemma_count_in_folder(n - 1, results, g, folder_id);
            lemma_group_count_concat(
                self.folder_sections((n - 1) as nat, true, results),
                self.folder_section(n - 1, true, results),
                g,
            );
            if n - 1 != f {
                assert(self.folders@[n - 1].folder_id != folder_id) by {
                    if n - 1 < f {
                        assert(self.folders@[n - 1].folder_id != self.folders@[f].folder_id);
                    } else {
                        assert(self.folders@[f].folder_id != self.folders@[n - 1].folder_id);
                    }
                }
            }
        }
    }

    /// A project group of this window that is filed in a folder, and that no recent workspace
    /// stands for, is listed exactly once while everything is listed.
    pub proof fn filed_groups_are_listed_once(
        &self,
        results: &MatchResults,
        current: Option<WorkspaceId>,
        g: usize,
        f: int,
    )
        requires
            0 <= f < self.folders@.len(),
            distinct_folders(self),
            g < self.window_project_groups@.len(),
            self.group_folder(&self.window_project_groups@[g as int]) == Some(
                self.folders@[f].folder_id,
            ),
            !self.represented(&self.window_project_groups@[g as int]),
        ensures
            group_count(self.folder_section(f, true, results), g) == 1,
            group_count(self.listed(true, results, current), g) == 1,
    {
        let hits = seqs::views(results.project_groups@);
        let a = self.current_folders_section(true, seqs::views(results.open_folders@));
        let b = self.this_window_section(true, hits);
        let c = self.folder_sections(self.folders@.len(), true, results);
        let d = self.draft_section();
        let e = self.ungrouped_section(true, results, current);
        let n = self.new_folder_section(true);
        self.lemma_count_in_folder(f, results, g, self.folders@[f].folder_id);
        self.lemma_count_in_folders(self.folders@.len(), results, g, f);
        self.filed_groups_leave_this_window(true, hits, g);
        lemma_group_count_zero(a, g);
        lemma_group_count_zero(b, g);
        lemma_group_count_zero(d, g);
        lemma_group_count_zero(e, g);
        lemma_group_count_zero(n, g);
        lemma_group_count_concat(a, b, g);
        lemma_group_count_concat(a + b, c, g);
        lemma_group_count_concat(a + b + c, d, g);
        lemma_group_count_concat(a + b + c + d, e, g);
        lemma_group_count_concat(a + b + c + d + e, n, g);
    }
}

impl RecentProjectsDelegate {
    proof fn lemma_same_folder_section(
        &self,
        other: &RecentProjectsDelegate,
        f: int,
        empty: bool,
        results: &MatchResults,
    )
        requires
            self.same_projects(other),
        ensures
            self.folder_section(f, empty, results) == other.folder_section(f, empty, results),
    {
        let folder_id = self.folders@[f].folder_id;
        assert forall|k: int| #[trigger] self.assigned_workspace(k) == other.assigned_workspace(
            k,
        ) by {}
        assert(self.membership(folder_id) =~= other.membership(folder_id));
        assert(self.member_ids(folder_id) =~= other.member_ids(folder_id));
        assert forall|key: &ProjectGroupKey| #[trigger] self.represented(key) == other.represented(
            key,
        ) by {}
        assert(self.grouped_in(folder_id) =~= other.grouped_in(folder_id));
    }

    proof fn lemma_same_folder_sections(
        &self,
        other: &RecentProjectsDelegate,
        n: nat,
        empty: bool,
        results: &MatchResults,
    )
        requires
            self.same_projects(other),
        ensures
            self.folder_sections(n, empty, results) == other.folder_sections(n, empty, results),
        decreases n,
    {
        if n > 0 {
            self.lemma_same_folder_sections(other, (n - 1) as nat, empty, results);
            self.lemma_same_folder_section(other, n - 1, empty, results);
        }
    }

    proof fn lemma_same_candidates(
        &self,
        other: &RecentProjectsDelegate,
        current: Option<WorkspaceId>,
    )
        requires
            self.same_projects(other),
        ensures
            forall|id: usize| #[trigger] self.filed_workspace(id) ==> other.filed_workspace(id),
            forall|w: &RecentWorkspace| #[trigger]
                other.candidate(w, current) ==> self.candidate(w, current),
    {
        assert forall|id: usize| #[trigger] self.filed_workspace(id) implies other.filed_workspace(
            id,
        ) by {
            let k = choose|k: int|
                0 <= k < self.assignments@.len() && #[trigger] self.assigned_workspace(k) == Some(
                    id,
                );
            assert(other.assigned_workspace(k) == Some(id));
        }
        assert forall|w: &RecentWorkspace| #[trigger] other.candidate(w, current) implies
            self.candidate(w, current) by {
            if self.open_as_folder(w) {
                let (p, f) = choose|p: int, f: int| self.open_at(w, p, f);
                assert(other.open_at(w, p, f));
            }
        }
    }

    /// The sections of projects and folders depend on nothing but these.
    pub(crate) proof fn lemma_same_sections(
        &self,
        other: &RecentProjectsDelegate,
        empty: bool,
        results: &MatchResults,
        current: Option<WorkspaceId>,
    )
        requires
            self.same_projects(other),
        ensures
            self.current_folders_section(empty, seqs::views(results.open_folders@))
                == other.current_folders_section(empty, seqs::views(results.open_folders@)),
            self.this_window_section(empty, seqs::views(results.project_groups@))
                == other.this_window_section(empty, seqs::views(results.project_groups@)),
            self.folder_sections(self.folders@.len(), empty, results) == other.folder_sections(
                other.folders@.len(),
                empty,
                results,
            ),
            self.ungrouped_section(empty, results, current) == other.ungrouped_section(
                empty,
                results,
                current,
            ),
    {
        let hits = seqs::views(results.project_groups@);
        assert forall|g: int| #[trigger] self.unfiled_group(g) == other.unfiled_group(g) by {}
        assert(self.unfiled() =~= other.unfiled());
        assert(self.kept_match() =~= other.kept_match());
        assert(self.unfiled_match(hits) == other.unfiled_match(hits));
        assert(self.this_window_section(empty, hits) =~= other.this_window_section(empty, hits));
        self.lemma_same_folder_sections(other, self.folders@.len(), empty, results);
        self.lemma_same_candidates(other, current);
        other.lemma_same_candidates(self, current);
        assert(self.ungrouped(empty, results, current) =~= other.ungrouped(
            empty,
            results,
            current,
        ));
    }

    /// What is listed depends on the projects, the folders and the folder edit alone: neither the
    /// rows listed before nor the selection count.
    pub proof fn listing_depends_on_projects(
        &self,
        other: &RecentProjectsDelegate,
        empty: bool,
        results: &MatchResults,
        current: Option<WorkspaceId>,
    )
        requires
            self.same_projects(other),
            self.folder_edit == other.folder_edit,
        ensures
            self.listed(empty, results, current) == other.listed(empty, results, current),
    {
        self.lemma_same_sections(other, empty, results, current);
    }
}

/// Nothing is lost where everything passes.
pub proof fn lemma_filter_all<T>(s: Seq<T>, p: spec_fn(T) -> bool)
    requires
        forall|i: int| 0 <= i < s.len() ==> p(#[trigger] s[i]),
    ensures
        s.filter(p) == s,
    decreases s.len(),
{
    reveal(Seq::filter);
    if s.len() > 0 {
        assert forall|i: int| 0 <= i < s.drop_last().len() implies p(
            #[trigger] s.drop_last()[i],
        ) by {
            assert(s.drop_last()[i] == s[i]);
        }
        lemma_filter_all(s.drop_last(), p);
        assert(s.filter(p) =~= s);
    }
}

} // verus!
