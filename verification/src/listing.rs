//! The rows of the picker: what is listed for a query, in which section and in which order.
use crate::delegate::RecentProjectsDelegate;
use crate::model;
use crate::model::{
    EntryView, MatchView, ProjectFolder, ProjectFolderAssignment, ProjectFolderId,
    ProjectGroupKey, ProjectPickerEntry, ProjectPickerStyle, RecentWorkspace, StringMatch,
    WorkspaceId,
};
use crate::path;
use crate::path::{PathList, PathListView, PathView};
use crate::seqs;
use crate::text;
use vstd::prelude::*;

verus! {

/// What the fuzzy matcher is asked to match a query against, list by list. A match's
/// `candidate_id` is the index of its text in the list.
pub struct MatchRequest {
    pub query: String,
    pub open_folders: Vec<String>,
    pub project_groups: Vec<String>,
    pub recents: Vec<String>,
    pub folder_names: Vec<String>,
}

/// The most matches that are wanted of a list.
pub const MAX_MATCHES: usize = 100;

/// The matches that the fuzzy matcher found, best first.
pub struct MatchResults {
    pub open_folders: Vec<StringMatch>,
    pub project_groups: Vec<StringMatch>,
    pub recents: Vec<StringMatch>,
    pub folder_names: Vec<StringMatch>,
}

/// The query asks for everything: it holds nothing but white space.
pub open spec fn empty_query(query: Seq<char>) -> bool {
    text::trimmed_start(query).len() == 0
}

/// What a path list is found by: of each path the name and the whole path.
pub open spec fn blob_parts(paths: Seq<PathView>) -> Seq<Seq<char>>
    decreases paths.len(),
{
    if paths.len() == 0 {
        Seq::empty()
    } else {
        let rest = blob_parts(paths.drop_last());
        match paths.last().compact_file_name {
            Some(name) => rest.push(name).push(paths.last().compact),
            None => rest.push(paths.last().compact),
        }
    }
}

/// The text that a path list is matched by.
pub open spec fn search_blob(paths: PathListView) -> Seq<char> {
    text::joined(blob_parts(paths.ordered_paths), " "@)
}

pub fn path_list_search_blob(paths: &PathList) -> (r: String)
    ensures
        r@ == search_blob(paths@),
{
    let mut parts: Vec<String> = Vec::new();
    let ghost all = paths@.ordered_paths;
    let mut i: usize = 0;
    assert(all.take(0) =~= Seq::empty());
    assert(seqs::views(parts@) =~= blob_parts(all.take(0)));
    while i < paths.ordered_paths.len()
        invariant
            i <= paths.ordered_paths@.len(),
            all == seqs::views(paths.ordered_paths@),
            seqs::views(parts@) == blob_parts(all.take(i as int)),
        decreases paths.ordered_paths@.len() - i,
    {
        assert(all.take(i + 1).drop_last() =~= all.take(i as int));
        assert(all.take(i + 1).last() == paths.ordered_paths@[i as int]@);
        match &paths.ordered_paths[i].compact_file_name {
            Some(name) => {
                proof {
                    seqs::lemma_views_push(parts@, *name);
                }
                parts.push(name.clone());
            },
            None => {},
        }
        proof {
            seqs::lemma_views_push(parts@, paths.ordered_paths@[i as int].compact);
        }
        parts.push(paths.ordered_paths[i].compact.clone());
        i = i + 1;
    }
    assert(all.take(i as int) =~= all);
    text::join(&parts, " ")
}

/// Rows for the project groups `ids`, highlighted by `hits`.
pub open spec fn group_rows(ids: Seq<usize>, hits: Seq<MatchView>) -> Seq<EntryView> {
    Seq::new(ids.len(), |i: int| EntryView::ProjectGroup(model::match_for(hits, ids[i])))
}

/// Rows for the recent workspaces `ids`, highlighted by `hits`.
pub open spec fn recent_rows(ids: Seq<usize>, hits: Seq<MatchView>) -> Seq<EntryView> {
    Seq::new(ids.len(), |i: int| EntryView::RecentProject(model::match_for(hits, ids[i])))
}

fn push_group_rows(
    entries: &mut Vec<ProjectPickerEntry>,
    ids: &Vec<usize>,
    hits: &Vec<StringMatch>,
)
    ensures
        seqs::views(final(entries)@) == seqs::views(old(entries)@) + group_rows(
            ids@,
            seqs::views(hits@),
        ),
{
    let ghost before = seqs::views(entries@);
    let ghost hit_views = seqs::views(hits@);
    let mut i: usize = 0;
    assert(before =~= before + group_rows(ids@.take(0), hit_views));
    while i < ids.len()
        invariant
            i <= ids@.len(),
            hit_views == seqs::views(hits@),
            seqs::views(entries@) == before + group_rows(ids@.take(i as int), hit_views),
        decreases ids@.len() - i,
    {
        let row: ProjectPickerEntry = ProjectPickerEntry::ProjectGroup(
            model::recent_project_match(ids[i], hits),
        );
        proof {
            seqs::lemma_views_push(entries@, row);
            assert(group_rows(ids@.take(i + 1), hit_views) =~= group_rows(
                ids@.take(i as int),
                hit_views,
            ).push(row@));
            assert(before + group_rows(ids@.take(i + 1), hit_views) =~= (before + group_rows(
                ids@.take(i as int),
                hit_views,
            )).push(row@));
        }
        entries.push(row);
        i = i + 1;
    }
    assert(ids@.take(i as int) =~= ids@);
}

fn push_recent_rows(
    entries: &mut Vec<ProjectPickerEntry>,
    ids: &Vec<usize>,
    hits: &Vec<StringMatch>,
)
    ensures
        seqs::views(final(entries)@) == seqs::views(old(entries)@) + recent_rows(
            ids@,
            seqs::views(hits@),
        ),
{
    let ghost before = seqs::views(entries@);
    let ghost hit_views = seqs::views(hits@);
    let mut i: usize = 0;
    assert(before =~= before + recent_rows(ids@.take(0), hit_views));
    while i < ids.len()
        invariant
            i <= ids@.len(),
            hit_views == seqs::views(hits@),
            seqs::views(entries@) == before + recent_rows(ids@.take(i as int), hit_views),
        decreases ids@.len() - i,
    {
        let row: ProjectPickerEntry = ProjectPickerEntry::RecentProject(
            model::recent_project_match(ids[i], hits),
        );
        proof {
            seqs::lemma_views_push(entries@, row);
            assert(recent_rows(ids@.take(i + 1), hit_views) =~= recent_rows(
                ids@.take(i as int),
                hit_views,
            ).push(row@));
            assert(before + recent_rows(ids@.take(i + 1), hit_views) =~= (before + recent_rows(
                ids@.take(i as int),
                hit_views,
            )).push(row@));
        }
        entries.push(row);
        i = i + 1;
    }
    assert(ids@.take(i as int) =~= ids@);
}

/// Rows for the open folders that `hits` name.
pub open spec fn open_folder_rows(hits: Seq<MatchView>) -> Seq<EntryView> {
    Seq::new(
        hits.len(),
        |i: int|
            EntryView::OpenFolder {
                index: hits[i].candidate_id,
                positions: hits[i].positions,
            },
    )
}

/// Matches of the first `n` candidates that highlight nothing.
pub open spec fn blank_matches(n: nat) -> Seq<MatchView> {
    Seq::new(n, |i: int| model::blank_match(i as usize))
}

/// Members of a folder are listed by their position in it.
pub open spec fn by_position() -> spec_fn((i64, usize), (i64, usize)) -> bool {
    |a: (i64, usize), b: (i64, usize)| a.0 <= b.0
}

/// The candidates in `ids` that are to be shown: all of them, or those among the matches.
pub open spec fn shown(all: bool, hits: Seq<MatchView>) -> spec_fn(usize) -> bool {
    |id: usize| all || model::matched(hits, id)
}

/// What is highlighted: nothing, while everything is listed.
pub open spec fn highlights(empty: bool, hits: Seq<MatchView>) -> Seq<MatchView> {
    if empty {
        Seq::empty()
    } else {
        hits
    }
}

fn filter_shown(ids: &Vec<usize>, all: bool, hits: &Vec<StringMatch>) -> (r: Vec<usize>)
    ensures
        r@ == ids@.filter(shown(all, seqs::views(hits@))),
{
    let ghost p = shown(all, seqs::views(hits@));
    let mut r: Vec<usize> = Vec::new();
    let mut i: usize = 0;
    proof {
        reveal(Seq::filter);
    }
    assert(ids@.take(0).filter(p) =~= Seq::empty());
    while i < ids.len()
        invariant
            i <= ids@.len(),
            p == shown(all, seqs::views(hits@)),
            r@ == ids@.take(i as int).filter(p),
        decreases ids@.len() - i,
    {
        proof {
            assert(ids@.take(i + 1) =~= ids@.take(i as int).push(ids@[i as int]));
            ids@.take(i as int).lemma_filter_push(ids@[i as int], p);
        }
        if all || model::is_matched(hits, ids[i]) {
            r.push(ids[i]);
        }
        i = i + 1;
    }
    assert(ids@.take(i as int) =~= ids@);
    r
}

impl RecentProjectsDelegate {
    /// The section of the active workspace's folders.
    pub open spec fn current_folders_section(&self, empty: bool, hits: Seq<MatchView>) -> Seq<
        EntryView,
    > {
        let rows = open_folder_rows(
            if empty {
                blank_matches(self.open_folders@.len())
            } else {
                hits
            },
        );
        if self.open_folders@.len() == 0 || rows.len() == 0 {
            Seq::empty()
        } else {
            seq![EntryView::Header("Current Folders"@)] + rows
        }
    }

    fn push_current_folders(
        &self,
        entries: &mut Vec<ProjectPickerEntry>,
        empty: bool,
        hits: &Vec<StringMatch>,
    )
        ensures
            seqs::views(final(entries)@) == seqs::views(old(entries)@)
                + self.current_folders_section(empty, seqs::views(hits@)),
    {
        let ghost before = seqs::views(entries@);
        let n: usize = if empty {
            self.open_folders.len()
        } else {
            hits.len()
        };
        let ghost listed = if empty {
            blank_matches(self.open_folders@.len())
        } else {
            seqs::views(hits@)
        };
        if self.open_folders.len() == 0 || n == 0 {
            assert(before =~= before + Seq::<EntryView>::empty());
            return;
        }
        let header: ProjectPickerEntry = ProjectPickerEntry::Header("Current Folders".to_owned());
        proof {
            seqs::lemma_views_push(entries@, header);
        }
        entries.push(header);
        let ghost titled = before.push(EntryView::Header("Current Folders"@));
        assert(titled =~= titled + open_folder_rows(listed.take(0)));
        let mut i: usize = 0;
        while i < n
            invariant
                i <= n,
                n == listed.len(),
                listed == (if empty {
                    blank_matches(self.open_folders@.len())
                } else {
                    seqs::views(hits@)
                }),
                empty ==> n == self.open_folders@.len(),
                !empty ==> n == hits@.len(),
                seqs::views(entries@) == titled + open_folder_rows(listed.take(i as int)),
            decreases n - i,
        {
            let row: ProjectPickerEntry = if empty {
                let none: Vec<usize> = Vec::new();
                assert(none@ =~= Seq::empty());
                ProjectPickerEntry::OpenFolder { index: i, positions: none }
            } else {
                let hit: StringMatch = hits[i].clone();
                ProjectPickerEntry::OpenFolder { index: hit.candidate_id, positions: hit.positions }
            };
            proof {
                seqs::lemma_views_push(entries@, row);
                assert(open_folder_rows(listed.take(i + 1)) =~= open_folder_rows(
                    listed.take(i as int),
                ).push(row@));
                assert(titled + open_folder_rows(listed.take(i + 1)) =~= (titled
                    + open_folder_rows(listed.take(i as int))).push(row@));
            }
            entries.push(row);
            i = i + 1;
        }
        assert(listed.take(i as int) =~= listed);
        assert(titled + open_folder_rows(listed) =~= before + (seq![
            EntryView::Header("Current Folders"@),
        ] + open_folder_rows(listed)));
    }

    /// One of the folders has this key.
    pub open spec fn known_folder(&self, id: ProjectFolderId) -> bool {
        exists|f: int| 0 <= f < self.folders@.len() && (#[trigger] self.folders@[f]).folder_id == id
    }

    /// Group `g` exists and is filed in one of the folders. An assignment to a folder that is not
    /// among them files nothing.
    pub open spec fn filed_group(&self, g: int) -> bool {
        0 <= g < self.window_project_groups@.len() && (self.group_folder(
            &self.window_project_groups@[g],
        ) matches Some(id) && self.known_folder(id))
    }

    /// Group `g` exists and is filed in none of the folders.
    pub open spec fn unfiled_group(&self, g: int) -> bool {
        0 <= g < self.window_project_groups@.len() && !self.filed_group(g)
    }

    pub open spec fn unfiled(&self) -> spec_fn(int) -> bool {
        |g: int| self.unfiled_group(g)
    }

    /// The match is of a group that no folder holds.
    pub open spec fn kept_match(&self) -> spec_fn(MatchView) -> bool {
        |m: MatchView| !self.filed_group(m.candidate_id as int)
    }

    /// Some group among the matches exists and is filed in no folder.
    pub open spec fn unfiled_match(&self, hits: Seq<MatchView>) -> bool {
        exists|k: int|
            0 <= k < hits.len() && self.unfiled_group((#[trigger] hits[k]).candidate_id as int)
    }

    /// The section of this window's project groups that no folder holds.
    pub open spec fn this_window_section(&self, empty: bool, hits: Seq<MatchView>) -> Seq<
        EntryView,
    > {
        if empty {
            let ids = seqs::index_filter(self.window_project_groups@.len(), self.unfiled());
            if ids.len() == 0 {
                Seq::empty()
            } else {
                seq![EntryView::Header("This Window"@)] + group_rows(ids, Seq::empty())
            }
        } else {
            let kept = hits.filter(self.kept_match());
            if !self.unfiled_match(hits) {
                Seq::empty()
            } else {
                seq![EntryView::Header("This Window"@)] + Seq::new(
                    kept.len(),
                    |i: int| EntryView::ProjectGroup(kept[i]),
                )
            }
        }
    }

    fn is_known_folder(&self, id: ProjectFolderId) -> (r: bool)
        ensures
            r == self.known_folder(id),
    {
        let mut f: usize = 0;
        while f < self.folders.len()
            invariant
                f <= self.folders@.len(),
                forall|j: int|
                    0 <= j < f ==> (#[trigger] self.folders@[j]).folder_id != id,
            decreases self.folders@.len() - f,
        {
            if self.folders[f].folder_id == id {
                assert(self.folders@[f as int].folder_id == id);
                return true;
            }
            f = f + 1;
        }
        false
    }

    fn is_filed_group(&self, g: usize) -> (r: bool)
        ensures
            r == self.filed_group(g as int),
    {
        if g >= self.window_project_groups.len() {
            return false;
        }
        match self.folder_id_for_project_group(&self.window_project_groups[g]) {
            Some(id) => self.is_known_folder(id),
            None => false,
        }
    }

    fn unfiled_groups(&self) -> (r: Vec<usize>)
        ensures
            r@ == seqs::index_filter(self.window_project_groups@.len(), self.unfiled()),
    {
        let mut r: Vec<usize> = Vec::new();
        let mut g: usize = 0;
        while g < self.window_project_groups.len()
            invariant
                g <= self.window_project_groups@.len(),
                r@ == seqs::index_filter(g as nat, self.unfiled()),
            decreases self.window_project_groups@.len() - g,
        {
            if !self.is_filed_group(g) {
                r.push(g);
            }
            g = g + 1;
        }
        r
    }

    fn push_this_window(
        &self,
        entries: &mut Vec<ProjectPickerEntry>,
        empty: bool,
        hits: &Vec<StringMatch>,
    )
        ensures
            seqs::views(final(entries)@) == seqs::views(old(entries)@) + self.this_window_section(
                empty,
                seqs::views(hits@),
            ),
    {
        let ghost before = seqs::views(entries@);
        let ghost all = seqs::views(hits@);
        let header: ProjectPickerEntry = ProjectPickerEntry::Header("This Window".to_owned());
        let ghost titled = before.push(EntryView::Header("This Window"@));
        if empty {
            let ids: Vec<usize> = self.unfiled_groups();
            if ids.len() == 0 {
                assert(before =~= before + Seq::<EntryView>::empty());
                return;
            }
            proof {
                seqs::lemma_views_push(entries@, header);
            }
            entries.push(header);
            let none: Vec<StringMatch> = Vec::new();
            push_group_rows(entries, &ids, &none);
            proof {
                assert(seqs::views(none@) =~= Seq::empty());
                assert(titled + group_rows(ids@, Seq::empty()) =~= before + (seq![
                    EntryView::Header("This Window"@),
                ] + group_rows(ids@, Seq::empty())));
            }
        } else {
            let ghost p = self.kept_match();
            let mut any: bool = false;
            let mut kept: Vec<StringMatch> = Vec::new();
            let mut i: usize = 0;
            proof {
                reveal(Seq::filter);
            }
            assert(all.take(0).filter(p) =~= Seq::empty());
            assert(seqs::views(kept@) =~= all.take(0).filter(p));
            while i < hits.len()
                invariant
                    i <= hits@.len(),
                    all == seqs::views(hits@),
                    p == self.kept_match(),
                    seqs::views(kept@) == all.take(i as int).filter(p),
                    any == self.unfiled_match(all.take(i as int)),
                decreases hits@.len() - i,
            {
                let id: usize = hits[i].candidate_id;
                let filed: bool = self.is_filed_group(id);
                proof {
                    assert(all.take(i + 1) =~= all.take(i as int).push(all[i as int]));
                    all.take(i as int).lemma_filter_push(all[i as int], p);
                    seqs::lemma_views_push(kept@, hits@[i as int]);
                    let prefix = all.take(i as int);
                    let longer = all.take(i + 1);
                    assert(longer[i as int] == all[i as int]);
                    if self.unfiled_match(prefix) {
                        let k = choose|k: int|
                            0 <= k < prefix.len() && self.unfiled_group(
                                (#[trigger] prefix[k]).candidate_id as int,
                            );
                        assert(longer[k] == prefix[k]);
                    }
                    if self.unfiled_match(longer) && !self.unfiled_group(
                        all[i as int].candidate_id as int,
                    ) {
                        let k = choose|k: int|
                            0 <= k < longer.len() && self.unfiled_group(
                                (#[trigger] longer[k]).candidate_id as int,
                            );
                        assert(longer[k] == prefix[k]);
                    }
                }
                if !filed {
                    let copy: StringMatch = hits[i].clone();
                    proof {
                        seqs::lemma_views_push(kept@, copy);
                    }
                    kept.push(copy);
                    if id < self.window_project_groups.len() {
                        any = true;
                    }
                }
                i = i + 1;
            }
            assert(all.take(i as int) =~= all);
            if !any {
                assert(before =~= before + Seq::<EntryView>::empty());
                return;
            }
            proof {
                seqs::lemma_views_push(entries@, header);
            }
            entries.push(header);
            let ghost kept_views = all.filter(p);
            let ghost rows = Seq::new(
                kept_views.len(),
                |k: int| EntryView::ProjectGroup(kept_views[k]),
            );
            assert(titled =~= titled + rows.take(0));
            let mut k: usize = 0;
            while k < kept.len()
                invariant
                    k <= kept@.len(),
                    kept_views == seqs::views(kept@),
                    rows == Seq::new(
                        kept_views.len(),
                        |k: int| EntryView::ProjectGroup(kept_views[k]),
                    ),
                    seqs::views(entries@) == titled + rows.take(k as int),
                decreases kept@.len() - k,
            {
                let row: ProjectPickerEntry = ProjectPickerEntry::ProjectGroup(kept[k].clone());
                proof {
                    seqs::lemma_views_push(entries@, row);
                    assert(row@ == rows[k as int]);
                    assert(titled + rows.take(k + 1) =~= (titled + rows.take(k as int)).push(row@));
                }
                entries.push(row);
                k = k + 1;
            }
            proof {
                assert(rows.take(k as int) =~= rows);
                assert(titled + rows =~= before + (seq![EntryView::Header("This Window"@)]
                    + rows));
            }
        }
    }

    /// Assignment `k` speaks of workspace `w`.
    pub open spec fn speaks_of(a: ProjectFolderAssignment) -> spec_fn(RecentWorkspace) -> bool {
        |w: RecentWorkspace|
            a.fits(model::folder_identity(w.host()), w.identity_paths@.identity())
    }

    /// The workspace that assignment `k` puts in a folder: the first that it speaks of.
    pub open spec fn assigned_workspace(&self, k: int) -> Option<usize> {
        seqs::first_index(self.workspaces@, Self::speaks_of(self.assignments@[k]))
    }

    /// Some assignment puts workspace `id` in a folder, which need not be among the folders.
    pub open spec fn filed_workspace(&self, id: usize) -> bool {
        exists|k: int|
            0 <= k < self.assignments@.len() && #[trigger] self.assigned_workspace(k) == Some(id)
    }

    /// The position and the workspace that assignment `k` gives to the folder.
    pub open spec fn membership(&self, folder_id: ProjectFolderId) -> spec_fn(int) -> Option<
        (i64, usize),
    > {
        |k: int|
            if self.assignments@[k].folder_id == folder_id {
                match self.assigned_workspace(k) {
                    Some(id) => Some((self.assignments@[k].position, id)),
                    None => None,
                }
            } else {
                None
            }
    }

    /// The members of the folder, by position, with their positions.
    pub open spec fn members(&self, folder_id: ProjectFolderId) -> Seq<(i64, usize)> {
        seqs::stable_sort(
            seqs::index_filter_map(self.assignments@.len(), self.membership(folder_id)),
            by_position(),
        )
    }

    /// The workspaces in the folder, by position.
    pub open spec fn member_ids(&self, folder_id: ProjectFolderId) -> Seq<usize> {
        Seq::new(self.members(folder_id).len(), |i: int| self.members(folder_id)[i].1)
    }

    fn find_assigned_workspace(&self, k: usize) -> (r: Option<usize>)
        requires
            k < self.assignments@.len(),
        ensures
            r == self.assigned_workspace(k as int),
    {
        let a: &ProjectFolderAssignment = &self.assignments[k];
        let ghost p = Self::speaks_of(*a);
        let mut i: usize = 0;
        while i < self.workspaces.len()
            invariant
                i <= self.workspaces@.len(),
                k < self.assignments@.len(),
                *a == self.assignments@[k as int],
                p == Self::speaks_of(*a),
                forall|j: int| 0 <= j < i ==> !p(#[trigger] self.workspaces@[j]),
            decreases self.workspaces@.len() - i,
        {
            if self.workspaces[i].project_folder_identity() == a.remote_identity
                && self.workspaces[i].identity_paths.same_paths(&a.identity_paths) {
                proof {
                    assert(seqs::is_first(self.workspaces@, p, i as int));
                    seqs::lemma_first_index_is(self.workspaces@, p, i as int);
                }
                return Some(i);
            }
            i = i + 1;
        }
        proof {
            seqs::lemma_first_index_none(self.workspaces@, p);
        }
        None
    }

    fn folder_members(&self, folder_id: ProjectFolderId) -> (r: Vec<usize>)
        ensures
            r@ == self.member_ids(folder_id),
    {
        let ghost f = self.membership(folder_id);
        let ghost le = by_position();
        let mut sorted: Vec<(i64, usize)> = Vec::new();
        let mut k: usize = 0;
        while k < self.assignments.len()
            invariant
                k <= self.assignments@.len(),
                f == self.membership(folder_id),
                le == by_position(),
                sorted@ == seqs::stable_sort(seqs::index_filter_map(k as nat, f), le),
            decreases self.assignments@.len() - k,
        {
            if self.assignments[k].folder_id == folder_id {
                match self.find_assigned_workspace(k) {
                    Some(id) => {
                        let x: (i64, usize) = (self.assignments[k].position, id);
                        let mut at: usize = sorted.len();
                        while at > 0 && sorted[at - 1].0 > x.0
                            invariant
                                at <= sorted@.len(),
                                le == by_position(),
                                forall|j: int|
                                    at <= j < sorted@.len() ==> !le(#[trigger] sorted@[j], x),
                            decreases at,
                        {
                            at = at - 1;
                        }
                        proof {
                            seqs::lemma_insertion_point_is(sorted@, x, le, at as int);
                            seqs::lemma_stable_sort_push(
                                seqs::index_filter_map(k as nat, f),
                                x,
                                le,
                            );
                        }
                        sorted.insert(at, x);
                    },
                    None => {},
                }
            }
            k = k + 1;
        }
        let mut ids: Vec<usize> = Vec::new();
        let mut i: usize = 0;
        while i < sorted.len()
            invariant
                i <= sorted@.len(),
                ids@.len() == i,
                forall|j: int| 0 <= j < i ==> ids@[j] == (#[trigger] sorted@[j]).1,
            decreases sorted@.len() - i,
        {
            ids.push(sorted[i].1);
            i = i + 1;
        }
        assert(ids@ =~= self.member_ids(folder_id));
        ids
    }

    fn is_filed_workspace(&self, id: usize) -> (r: bool)
        ensures
            r == self.filed_workspace(id),
    {
        let mut k: usize = 0;
        while k < self.assignments.len()
            invariant
                k <= self.assignments@.len(),
                forall|j: int| 0 <= j < k ==> #[trigger] self.assigned_workspace(j) != Some(id),
            decreases self.assignments@.len() - k,
        {
            match self.find_assigned_workspace(k) {
                Some(found) => {
                    if found == id {
                        assert(self.assigned_workspace(k as int) == Some(id));
                        return true;
                    }
                },
                None => {},
            }
            k = k + 1;
        }
        false
    }

    /// A recent workspace stands for the same project as the group.
    pub open spec fn represented(&self, key: &ProjectGroupKey) -> bool {
        exists|w: int|
            0 <= w < self.workspaces@.len() && model::folder_identity(
                (#[trigger] self.workspaces@[w]).host(),
            ) == model::folder_identity(key.host) && self.workspaces@[w].identity_paths@.identity()
                == key.paths@.identity()
    }

    fn is_represented(&self, key: &ProjectGroupKey) -> (r: bool)
        ensures
            r == self.represented(key),
    {
        let identity: String = model::folder_identity_for_group(key);
        let mut w: usize = 0;
        while w < self.workspaces.len()
            invariant
                w <= self.workspaces@.len(),
                identity@ == model::folder_identity(key.host),
                forall|j: int|
                    0 <= j < w ==> !(model::folder_identity((#[trigger] self.workspaces@[j]).host())
                        == model::folder_identity(key.host)
                        && self.workspaces@[j].identity_paths@.identity()
                        == key.paths@.identity()),
            decreases self.workspaces@.len() - w,
        {
            if self.workspaces[w].project_folder_identity() == identity
                && self.workspaces[w].identity_paths.same_paths(&key.paths) {
                assert(model::folder_identity(self.workspaces@[w as int].host())
                    == model::folder_identity(key.host));
                return true;
            }
            w = w + 1;
        }
        false
    }

    /// Group `g` is filed in the folder, and no recent workspace stands for it there.
    pub open spec fn grouped_in(&self, folder_id: ProjectFolderId) -> spec_fn(int) -> bool {
        |g: int|
            self.group_folder(&self.window_project_groups@[g]) == Some(folder_id)
                && !self.represented(&self.window_project_groups@[g])
    }

    /// The project groups that the folder lists itself.
    pub open spec fn folder_groups(&self, folder_id: ProjectFolderId) -> Seq<usize> {
        seqs::index_filter(self.window_project_groups@.len(), self.grouped_in(folder_id))
    }

    fn groups_in_folder(&self, folder_id: ProjectFolderId) -> (r: Vec<usize>)
        ensures
            r@ == self.folder_groups(folder_id),
    {
        let mut r: Vec<usize> = Vec::new();
        let mut g: usize = 0;
        while g < self.window_project_groups.len()
            invariant
                g <= self.window_project_groups@.len(),
                r@ == seqs::index_filter(g as nat, self.grouped_in(folder_id)),
            decreases self.window_project_groups@.len() - g,
        {
            let key: &ProjectGroupKey = &self.window_project_groups[g];
            match self.folder_id_for_project_group(key) {
                Some(id) => {
                    if id == folder_id && !self.is_represented(key) {
                        r.push(g);
                    }
                },
                None => {},
            }
            g = g + 1;
        }
        r
    }

    /// A folder with this key is among the matches.
    pub open spec fn name_matched(&self, folder_id: ProjectFolderId, hits: Seq<MatchView>) -> bool {
        exists|k: int|
            0 <= k < hits.len() && (#[trigger] hits[k]).candidate_id < self.folders@.len()
                && self.folders@[hits[k].candidate_id as int].folder_id == folder_id
    }

    fn is_name_matched(&self, folder_id: ProjectFolderId, hits: &Vec<StringMatch>) -> (r: bool)
        ensures
            r == self.name_matched(folder_id, seqs::views(hits@)),
    {
        let ghost all = seqs::views(hits@);
        let mut k: usize = 0;
        while k < hits.len()
            invariant
                k <= hits@.len(),
                all == seqs::views(hits@),
                forall|j: int|
                    0 <= j < k ==> !((#[trigger] all[j]).candidate_id < self.folders@.len()
                        && self.folders@[all[j].candidate_id as int].folder_id == folder_id),
            decreases hits@.len() - k,
        {
            let id: usize = hits[k].candidate_id;
            if id < self.folders.len() && self.folders[id].folder_id == folder_id {
                assert(all[k as int].candidate_id == id);
                return true;
            }
            k = k + 1;
        }
        false
    }

    /// The folder is shown with everything in it: everything is listed, or its name matches.
    pub open spec fn whole_folder(&self, f: int, empty: bool, results: &MatchResults) -> bool {
        empty || self.name_matched(
            self.folders@[f].folder_id,
            seqs::views(results.folder_names@),
        )
    }

    /// The workspaces that are listed under folder `f`.
    pub open spec fn visible_members(&self, f: int, empty: bool, results: &MatchResults) -> Seq<
        usize,
    > {
        self.member_ids(self.folders@[f].folder_id).filter(
            shown(self.whole_folder(f, empty, results), seqs::views(results.recents@)),
        )
    }

    /// The project groups that are listed under folder `f`.
    pub open spec fn visible_groups(&self, f: int, empty: bool, results: &MatchResults) -> Seq<
        usize,
    > {
        self.folder_groups(self.folders@[f].folder_id).filter(
            shown(self.whole_folder(f, empty, results), seqs::views(results.project_groups@)),
        )
    }

    /// The section of folder `f`: none if neither its name nor anything in it matches.
    pub open spec fn folder_section(&self, f: int, empty: bool, results: &MatchResults) -> Seq<
        EntryView,
    > {
        let members = self.visible_members(f, empty, results);
        let groups = self.visible_groups(f, empty, results);
        if members.len() == 0 && groups.len() == 0 && !self.whole_folder(f, empty, results) {
            Seq::empty()
        } else {
            seq![
                EntryView::Folder {
                    folder_id: self.folders@[f].folder_id,
                    name: self.folders@[f].name@,
                },
            ] + recent_rows(members, highlights(empty, seqs::views(results.recents@)))
                + group_rows(groups, highlights(empty, seqs::views(results.project_groups@)))
        }
    }

    /// The sections of the first `n` folders.
    pub open spec fn folder_sections(&self, n: nat, empty: bool, results: &MatchResults) -> Seq<
        EntryView,
    >
        decreases n,
    {
        if n == 0 {
            Seq::empty()
        } else {
            self.folder_sections((n - 1) as nat, empty, results) + self.folder_section(
                n - 1,
                empty,
                results,
            )
        }
    }

    fn push_folder(
        &self,
        entries: &mut Vec<ProjectPickerEntry>,
        f: usize,
        empty: bool,
        results: &MatchResults,
    )
        requires
            f < self.folders@.len(),
        ensures
            seqs::views(final(entries)@) == seqs::views(old(entries)@) + self.folder_section(
                f as int,
                empty,
                results,
            ),
    {
        let ghost before = seqs::views(entries@);
        let folder: &ProjectFolder = &self.folders[f];
        let whole: bool = empty || self.is_name_matched(folder.folder_id, &results.folder_names);
        let members: Vec<usize> = filter_shown(
            &self.folder_members(folder.folder_id),
            whole,
            &results.recents,
        );
        let groups: Vec<usize> = filter_shown(
            &self.groups_in_folder(folder.folder_id),
            whole,
            &results.project_groups,
        );
        if members.len() == 0 && groups.len() == 0 && !whole {
            assert(before =~= before + Seq::<EntryView>::empty());
            return;
        }
        let row: ProjectPickerEntry = ProjectPickerEntry::Folder {
            folder_id: folder.folder_id,
            name: folder.name.clone(),
        };
        let ghost first = row@;
        proof {
            seqs::lemma_views_push(entries@, row);
        }
        entries.push(row);
        let none: Vec<StringMatch> = Vec::new();
        assert(seqs::views(none@) =~= Seq::empty());
        if empty {
            push_recent_rows(entries, &members, &none);
            push_group_rows(entries, &groups, &none);
        } else {
            push_recent_rows(entries, &members, &results.recents);
            push_group_rows(entries, &groups, &results.project_groups);
        }
        proof {
            let a = recent_rows(members@, highlights(empty, seqs::views(results.recents@)));
            let b = group_rows(groups@, highlights(empty, seqs::views(results.project_groups@)));
            assert(before.push(first) + a + b =~= before + (seq![first] + a + b));
        }
    }

    /// The row of the folder that is being created.
    pub open spec fn draft_section(&self) -> Seq<EntryView> {
        if self.creating() {
            seq![EntryView::Folder { folder_id: ProjectFolderId((-1) as i64), name: Seq::empty() }]
        } else {
            Seq::empty()
        }
    }

    /// Workspace `i` is listed outside all folders.
    pub open spec fn ungrouped(
        &self,
        empty: bool,
        results: &MatchResults,
        current: Option<WorkspaceId>,
    ) -> spec_fn(int) -> bool {
        |i: int|
            self.candidate(&self.workspaces@[i], current) && !self.filed_workspace(i as usize) && (
            empty || model::matched(seqs::views(results.recents@), i as usize))
    }

    /// The workspaces that are listed outside all folders.
    pub open spec fn ungrouped_ids(
        &self,
        empty: bool,
        results: &MatchResults,
        current: Option<WorkspaceId>,
    ) -> Seq<usize> {
        seqs::index_filter(self.workspaces@.len(), self.ungrouped(empty, results, current))
    }

    /// The section of the recent projects that no folder holds.
    pub open spec fn ungrouped_section(
        &self,
        empty: bool,
        results: &MatchResults,
        current: Option<WorkspaceId>,
    ) -> Seq<EntryView> {
        let ids = self.ungrouped_ids(empty, results, current);
        if ids.len() == 0 {
            Seq::empty()
        } else {
            seq![EntryView::Header("Ungrouped"@)] + recent_rows(
                ids,
                highlights(empty, seqs::views(results.recents@)),
            )
        }
    }

    fn push_ungrouped(
        &self,
        entries: &mut Vec<ProjectPickerEntry>,
        empty: bool,
        results: &MatchResults,
        current: Option<WorkspaceId>,
    )
        ensures
            seqs::views(final(entries)@) == seqs::views(old(entries)@) + self.ungrouped_section(
                empty,
                results,
                current,
            ),
    {
        let ghost before = seqs::views(entries@);
        let mut ids: Vec<usize> = Vec::new();
        let mut i: usize = 0;
        while i < self.workspaces.len()
            invariant
                i <= self.workspaces@.len(),
                ids@ == seqs::index_filter(i as nat, self.ungrouped(empty, results, current)),
            decreases self.workspaces@.len() - i,
        {
            if self.is_valid_recent_candidate(&self.workspaces[i], current)
                && !self.is_filed_workspace(i) && (empty || model::is_matched(
                &results.recents,
                i,
            )) {
                ids.push(i);
            }
            i = i + 1;
        }
        if ids.len() == 0 {
            assert(before =~= before + Seq::<EntryView>::empty());
            return;
        }
        let header: ProjectPickerEntry = ProjectPickerEntry::Header("Ungrouped".to_owned());
        proof {
            seqs::lemma_views_push(entries@, header);
        }
        entries.push(header);
        let none: Vec<StringMatch> = Vec::new();
        assert(seqs::views(none@) =~= Seq::empty());
        if empty {
            push_recent_rows(entries, &ids, &none);
        } else {
            push_recent_rows(entries, &ids, &results.recents);
        }
        proof {
            let rows = recent_rows(ids@, highlights(empty, seqs::views(results.recents@)));
            assert(before.push(EntryView::Header("Ungrouped"@)) + rows =~= before + (seq![
                EntryView::Header("Ungrouped"@),
            ] + rows));
        }
    }

    /// The row that creates a folder: in the modal, while everything is listed and no folder is
    /// being created.
    pub open spec fn new_folder_section(&self, empty: bool) -> Seq<EntryView> {
        if self.style == ProjectPickerStyle::Modal && empty && !self.creating() {
            seq![EntryView::NewFolder]
        } else {
            Seq::empty()
        }
    }

    /// The rows that are listed: for everything or for matches of a query.
    pub open spec fn listed(
        &self,
        empty: bool,
        results: &MatchResults,
        current: Option<WorkspaceId>,
    ) -> Seq<EntryView> {
        self.current_folders_section(empty, seqs::views(results.open_folders@))
            + self.this_window_section(empty, seqs::views(results.project_groups@))
            + self.folder_sections(self.folders@.len(), empty, results) + self.draft_section()
            + self.ungrouped_section(empty, results, current) + self.new_folder_section(empty)
    }

    fn build_entries(
        &self,
        empty: bool,
        results: &MatchResults,
        current: Option<WorkspaceId>,
    ) -> (entries: Vec<ProjectPickerEntry>)
        ensures
            seqs::views(entries@) == self.listed(empty, results, current),
    {
        let mut entries: Vec<ProjectPickerEntry> = Vec::new();
        assert(seqs::views(entries@) =~= Seq::<EntryView>::empty());
        self.push_current_folders(&mut entries, empty, &results.open_folders);
        self.push_this_window(&mut entries, empty, &results.project_groups);
        let ghost open = self.current_folders_section(empty, seqs::views(results.open_folders@))
            + self.this_window_section(empty, seqs::views(results.project_groups@));
        assert(seqs::views(entries@) =~= open);
        let mut f: usize = 0;
        assert(open =~= open + self.folder_sections(0, empty, results));
        while f < self.folders.len()
            invariant
                f <= self.folders@.len(),
                seqs::views(entries@) == open + self.folder_sections(f as nat, empty, results),
            decreases self.folders@.len() - f,
        {
            self.push_folder(&mut entries, f, empty, results);
            f = f + 1;
            assert(open + self.folder_sections(f as nat, empty, results) =~= open
                + self.folder_sections((f - 1) as nat, empty, results) + self.folder_section(
                f - 1,
                empty,
                results,
            ));
        }
        let ghost foldered = open + self.folder_sections(self.folders@.len(), empty, results);
        if self.is_creating_folder() {
            let row: ProjectPickerEntry = ProjectPickerEntry::Folder {
                folder_id: ProjectFolderId(-1),
                name: String::new(),
            };
            proof {
                seqs::lemma_views_push(entries@, row);
                assert(foldered.push(row@) =~= foldered + self.draft_section());
            }
            entries.push(row);
        } else {
            assert(foldered =~= foldered + self.draft_section());
        }
        self.push_ungrouped(&mut entries, empty, results, current);
        let ghost grouped = foldered + self.draft_section() + self.ungrouped_section(
            empty,
            results,
            current,
        );
        if self.style == ProjectPickerStyle::Modal && empty && !self.is_creating_folder() {
            proof {
                seqs::lemma_views_push(entries@, ProjectPickerEntry::NewFolder);
                assert(grouped.push(EntryView::NewFolder) =~= grouped + self.new_folder_section(
                    empty,
                ));
            }
            entries.push(ProjectPickerEntry::NewFolder);
        } else {
            assert(grouped =~= grouped + self.new_folder_section(empty));
        }
        entries
    }

    /// The request asks for what `query` has to be matched against.
    pub open spec fn requested(&self, query: Seq<char>, r: &MatchRequest) -> bool {
        &&& r.query@ == text::trimmed_start(query)
        &&& r.open_folders@.len() == self.open_folders@.len()
        &&& forall|i: int|
            0 <= i < r.open_folders@.len() ==> (#[trigger] r.open_folders@[i])@
                == self.open_folders@[i].name@
        &&& r.project_groups@.len() == self.window_project_groups@.len()
        &&& forall|i: int|
            0 <= i < r.project_groups@.len() ==> (#[trigger] r.project_groups@[i])@ == search_blob(
                self.window_project_groups@[i].paths@,
            )
        &&& r.recents@.len() == self.workspaces@.len()
        &&& forall|i: int|
            0 <= i < r.recents@.len() ==> (#[trigger] r.recents@[i])@ == search_blob(
                self.workspaces@[i].identity_paths@,
            )
        &&& r.folder_names@.len() == (if empty_query(query) {
            0
        } else {
            self.folders@.len()
        })
        &&& forall|i: int|
            0 <= i < r.folder_names@.len() ==> (#[trigger] r.folder_names@[i])@
                == self.folders@[i].name@
    }

    /// What the fuzzy matcher has to match for `query`.
    pub fn match_request(&self, query: &str) -> (r: MatchRequest)
        ensures
            self.requested(query@, &r),
    {
        let query: String = text::trim_start(query);
        let mut open_folders: Vec<String> = Vec::new();
        let mut i: usize = 0;
        while i < self.open_folders.len()
            invariant
                i <= self.open_folders@.len(),
                open_folders@.len() == i,
                forall|j: int|
                    0 <= j < i ==> (#[trigger] open_folders@[j])@ == self.open_folders@[j].name@,
            decreases self.open_folders@.len() - i,
        {
            open_folders.push(self.open_folders[i].name.clone());
            i = i + 1;
        }
        let mut project_groups: Vec<String> = Vec::new();
        let mut g: usize = 0;
        while g < self.window_project_groups.len()
            invariant
                g <= self.window_project_groups@.len(),
                project_groups@.len() == g,
                forall|j: int|
                    0 <= j < g ==> (#[trigger] project_groups@[j])@ == search_blob(
                        self.window_project_groups@[j].paths@,
                    ),
            decreases self.window_project_groups@.len() - g,
        {
            project_groups.push(path_list_search_blob(&self.window_project_groups[g].paths));
            g = g + 1;
        }
        let mut recents: Vec<String> = Vec::new();
        let mut w: usize = 0;
        while w < self.workspaces.len()
            invariant
                w <= self.workspaces@.len(),
                recents@.len() == w,
                forall|j: int|
                    0 <= j < w ==> (#[trigger] recents@[j])@ == search_blob(
                        self.workspaces@[j].identity_paths@,
                    ),
            decreases self.workspaces@.len() - w,
        {
            recents.push(path_list_search_blob(&self.workspaces[w].identity_paths));
            w = w + 1;
        }
        let mut folder_names: Vec<String> = Vec::new();
        if !query.as_str().is_empty() {
            let mut f: usize = 0;
            while f < self.folders.len()
                invariant
                    f <= self.folders@.len(),
                    folder_names@.len() == f,
                    forall|j: int|
                        0 <= j < f ==> (#[trigger] folder_names@[j])@ == self.folders@[j].name@,
                decreases self.folders@.len() - f,
            {
                folder_names.push(self.folders[f].name.clone());
                f = f + 1;
            }
        }
        MatchRequest { query, open_folders, project_groups, recents, folder_names }
    }

    /// The first row that is no header, or the first row.
    pub open spec fn snapped(rows: Seq<EntryView>) -> usize {
        match seqs::first_index(rows, |e: EntryView| e.selectable()) {
            Some(i) => i,
            None => 0,
        }
    }

    /// Lists the rows for `query`, of which the fuzzy matcher made `results`, and selects the
    /// first row below a header, unless the selection was asked to stay this once. `current` is
    /// the workspace that the picker was opened in.
    pub fn update_matches(
        &mut self,
        query: &str,
        results: &MatchResults,
        current: Option<WorkspaceId>,
    )
        ensures
            final(self).same_projects(old(self)),
            final(self).same_edit(old(self)),
            old(self).wf() ==> final(self).wf(),
            final(self).rows() == old(self).listed(empty_query(query@), results, current),
            final(self).lists_everything == empty_query(query@),
            final(self).selected_index == (if old(self).snap_selection_to_first_non_header_match {
                Self::snapped(final(self).rows())
            } else {
                old(self).selected_index
            }),
            final(self).snap_selection_to_first_non_header_match,
    {
        let query: String = text::trim_start(query);
        let empty: bool = query.as_str().is_empty();
        let entries: Vec<ProjectPickerEntry> = self.build_entries(empty, results, current);
        self.filtered_entries = entries;
        self.lists_everything = empty;
        if self.snap_selection_to_first_non_header_match {
            self.selected_index = first_selectable(&self.filtered_entries);
        }
        self.snap_selection_to_first_non_header_match = true;
    }
}

fn first_selectable(entries: &Vec<ProjectPickerEntry>) -> (r: usize)
    ensures
        r == RecentProjectsDelegate::snapped(seqs::views(entries@)),
{
    let ghost rows = seqs::views(entries@);
    let ghost p = |e: EntryView| e.selectable();
    let mut i: usize = 0;
    while i < entries.len()
        invariant
            i <= entries@.len(),
            rows == seqs::views(entries@),
            p == (|e: EntryView| e.selectable()),
            forall|j: int| 0 <= j < i ==> !p(#[trigger] rows[j]),
        decreases entries@.len() - i,
    {
        if model::is_selectable_entry(&entries[i]) {
            proof {
                assert(p(rows[i as int]));
                seqs::lemma_first_index_is(rows, p, i as int);
            }
            return i;
        }
        i = i + 1;
    }
    proof {
        seqs::lemma_first_index_none(rows, p);
    }
    0
}

} // verus!
