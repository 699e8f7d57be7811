//! What holds of removals: which row is selected next, and what is left.
use crate::delegate::RecentProjectsDelegate;
use crate::delegate_laws;
use crate::deletion;
use crate::deletion::{EntryKind, RemoveAction};
use crate::model::{EntryView, ProjectGroupKey};
use crate::seqs;
use crate::terms;
use vstd::prelude::*;

verus! {

/// The row is of this kind; or, of no kind in particular, it is no title.
pub open spec fn is_wanted(row: EntryView, kind: Option<EntryKind>) -> bool {
    match kind {
        Some(EntryKind::Header) => row is Header,
        Some(EntryKind::OpenFolder) => row is OpenFolder,
        Some(EntryKind::ProjectGroup) => row is ProjectGroup,
        Some(EntryKind::Folder) => row is Folder,
        Some(EntryKind::RecentProject) => row is RecentProject,
        Some(EntryKind::NewFolder) => row is NewFolder,
        None => !(row is Header),
    }
}

/// None of the rows from `from` up to `to` is wanted.
pub open spec fn none_wanted(
    rows: Seq<EntryView>,
    kind: Option<EntryKind>,
    from: int,
    to: int,
) -> bool {
    forall|j: int| from <= j < to && 0 <= j < rows.len() ==> !is_wanted(#[trigger] rows[j], kind)
}

/// Rows of the preferred kind are asked for; or rows of any kind, where there is none of it.
pub open spec fn asked_for(
    rows: Seq<EntryView>,
    prefer: EntryKind,
    kind: Option<EntryKind>,
) -> bool {
    match kind {
        Some(k) => k == prefer,
        None => none_wanted(rows, Some(prefer), 0, rows.len() as int),
    }
}

proof fn lemma_wanted(rows: Seq<EntryView>, kind: Option<EntryKind>, i: int)
    ensures
        is_wanted(rows[i], kind) == deletion::eligible(rows[i], kind),
{
}

proof fn lemma_nearest(
    rows: Seq<EntryView>,
    at: int,
    prefer_previous: bool,
    kind: Option<EntryKind>,
    i: int,
)
    requires
        rows.len() <= usize::MAX,
        0 <= at,
    ensures
        at <= i < rows.len() && is_wanted(rows[i], kind) && none_wanted(rows, kind, at, i) && (
        prefer_previous ==> none_wanted(rows, kind, 0, at)) ==> deletion::nearest_index(
            rows,
            at,
            prefer_previous,
            kind,
        ) == Some(i as usize),
        0 <= i < at && i < rows.len() && is_wanted(rows[i], kind) && none_wanted(
            rows,
            kind,
            i + 1,
            at,
        ) && (!prefer_previous ==> none_wanted(rows, kind, at, rows.len() as int))
            ==> deletion::nearest_index(rows, at, prefer_previous, kind) == Some(i as usize),
        none_wanted(rows, kind, 0, rows.len() as int) ==> deletion::nearest_index(
            rows,
            at,
            prefer_previous,
            kind,
        ) is None,
{
    assert forall|j: int| 0 <= j < rows.len() implies is_wanted(#[trigger] rows[j], kind)
        == deletion::eligible(rows[j], kind) by {
        lemma_wanted(rows, kind, j);
    }
    if at <= i < rows.len() && is_wanted(rows[i], kind) && none_wanted(rows, kind, at, i) {
        assert(deletion::is_next(rows, at, kind, i));
        deletion::lemma_next_index_is(rows, at, kind, i);
    }
    if 0 <= i < at && i < rows.len() && is_wanted(rows[i], kind) && none_wanted(
        rows,
        kind,
        i + 1,
        at,
    ) {
        assert(deletion::is_previous(rows, at, kind, i));
        deletion::lemma_previous_index_is(rows, at, kind, i);
    }
    if none_wanted(rows, kind, 0, at) {
        assert forall|c: int| !deletion::is_previous(rows, at, kind, c) by {}
    }
    if none_wanted(rows, kind, at, rows.len() as int) {
        assert forall|c: int| !deletion::is_next(rows, at, kind, c) by {}
    }
}

/// In place of a removed row the next one of its kind is selected, or the last one before where
/// there is none, and the other way round where rows before it are preferred; rows of other kinds
/// are considered only where none of its kind is left, and titles never.
pub proof fn the_nearest_row_replaces_a_removed_one(
    rows: Seq<EntryView>,
    at: int,
    prefer_previous: bool,
    prefer: EntryKind,
    kind: Option<EntryKind>,
    i: int,
)
    requires
        rows.len() <= usize::MAX,
        0 <= at,
        asked_for(rows, prefer, kind),
    ensures
        at <= i < rows.len() && is_wanted(rows[i], kind) && none_wanted(rows, kind, at, i) && (
        prefer_previous ==> none_wanted(rows, kind, 0, at)) ==> deletion::replacement_index(
            rows,
            at,
            prefer_previous,
            prefer,
        ) == Some(i as usize),
        0 <= i < at && i < rows.len() && is_wanted(rows[i], kind) && none_wanted(
            rows,
            kind,
            i + 1,
            at,
        ) && (!prefer_previous ==> none_wanted(rows, kind, at, rows.len() as int))
            ==> deletion::replacement_index(rows, at, prefer_previous, prefer) == Some(i as usize),
        kind is None && none_wanted(rows, kind, 0, rows.len() as int)
            ==> deletion::replacement_index(rows, at, prefer_previous, prefer) is None,
{
    lemma_nearest(rows, at, prefer_previous, kind, i);
    lemma_nearest(rows, at, prefer_previous, Some(prefer), i);
}

/// The first group that is reached as the old key is and has its paths takes the new key; all
/// others stay as they are, and all do where there is none.
pub proof fn the_first_group_of_the_old_key_is_rekeyed(
    groups: Seq<ProjectGroupKey>,
    old_key: ProjectGroupKey,
    new_key: ProjectGroupKey,
    g: int,
    i: int,
)
    requires
        groups.len() <= usize::MAX,
        0 <= i < groups.len(),
    ensures
        ({
            let after = RecentProjectsDelegate::rekeyed(groups, old_key, new_key);
            &&& after.len() == groups.len()
            &&& 0 <= g < groups.len() && terms::reached_alike(groups[g].host, old_key.host)
                && terms::same_list(groups[g].paths, old_key.paths) && (forall|j: int|
                0 <= j < g ==> !(terms::reached_alike(
                    (#[trigger] groups[j]).host,
                    old_key.host,
                ) && terms::same_list(groups[j].paths, old_key.paths))) ==> after[g] == new_key
                && (i != g ==> after[i] == groups[i])
            &&& (forall|j: int|
                0 <= j < groups.len() ==> !(terms::reached_alike(
                    (#[trigger] groups[j]).host,
                    old_key.host,
                ) && terms::same_list(groups[j].paths, old_key.paths))) ==> after[i] == groups[i]
        }),
{
    let p = |key: ProjectGroupKey| key.equal_to(&old_key);
    assert forall|j: int| 0 <= j < groups.len() implies p(#[trigger] groups[j]) == (
    terms::reached_alike(groups[j].host, old_key.host) && terms::same_list(
        groups[j].paths,
        old_key.paths,
    )) by {
        delegate_laws::lists_are_compared_by_components(groups[j].paths, old_key.paths);
    }
    if 0 <= g < groups.len() && p(groups[g]) && (forall|j: int|
        0 <= j < g ==> !p(#[trigger] groups[j])) {
        assert(seqs::is_first(groups, p, g));
        seqs::lemma_first_index_is(groups, p, g);
    }
    if forall|j: int| 0 <= j < groups.len() ==> !p(#[trigger] groups[j]) {
        seqs::lemma_first_index_none(groups, p);
    }
}

/// Every group that is reached as the key is and has its paths leaves the window; each other one
/// stays as often as it was there.
pub proof fn groups_with_the_key_leave(
    groups: Seq<ProjectGroupKey>,
    key: &ProjectGroupKey,
    k: ProjectGroupKey,
)
    ensures
        ({
            let after = RecentProjectsDelegate::without_group(groups, key);
            &&& terms::reached_alike(k.host, key.host) && terms::same_list(k.paths, key.paths)
                ==> after.to_multiset().count(k) == 0
            &&& !(terms::reached_alike(k.host, key.host) && terms::same_list(k.paths, key.paths))
                ==> after.to_multiset().count(k) == groups.to_multiset().count(k)
        }),
{
    let p = |k: ProjectGroupKey| !k.equal_to(key);
    delegate_laws::lists_are_compared_by_components(k.paths, key.paths);
    seqs::lemma_filter_count(groups, p, k);
}

/// The groups that stay keep their order.
pub proof fn groups_that_stay_keep_their_order(
    groups: Seq<ProjectGroupKey>,
    key: &ProjectGroupKey,
    a: int,
    b: int,
) -> (x: (int, int))
    requires
        0 <= a < b < RecentProjectsDelegate::without_group(groups, key).len(),
    ensures
        0 <= x.0 < x.1 < groups.len(),
        groups[x.0] == RecentProjectsDelegate::without_group(groups, key)[a],
        groups[x.1] == RecentProjectsDelegate::without_group(groups, key)[b],
{
    let p = |k: ProjectGroupKey| !k.equal_to(key);
    seqs::lemma_filter_came_in_order(groups, p, a, b)
}

impl RecentProjectsDelegate {
    /// What is removed is what the selected row stands for; a title, the row that creates a folder
    /// and a row that stands for nothing remove nothing.
    pub proof fn the_selected_row_is_removed(&self)
        ensures
            match self.removal() {
                RemoveAction::OpenFolder(id) => {
                    &&& self.selected() is Some
                    &&& self.selected()->0 is OpenFolder
                    &&& self.selected()->0->index < self.open_folders@.len()
                    &&& id == self.open_folders@[self.selected()->0->index as int].worktree_id
                },
                RemoveAction::ProjectGroup(g) => {
                    &&& self.selected() is Some
                    &&& self.selected()->0 is ProjectGroup
                    &&& g == self.selected()->0->ProjectGroup_0.candidate_id
                    &&& g < self.window_project_groups@.len()
                },
                RemoveAction::RecentProject(w) => {
                    &&& self.selected() is Some
                    &&& self.selected()->0 is RecentProject
                    &&& w == self.selected()->0->RecentProject_0.candidate_id
                    &&& w < self.workspaces@.len()
                },
                RemoveAction::Folder(id) => {
                    &&& self.selected() is Some
                    &&& self.selected()->0 is Folder
                    &&& id == self.selected()->0->folder_id
                },
                RemoveAction::Nothing => self.selected() is Some ==> {
                    let row = self.selected()->0;
                    ||| row is Header
                    ||| row is NewFolder
                    ||| row is OpenFolder && row->index >= self.open_folders@.len()
                    ||| row is ProjectGroup && row->ProjectGroup_0.candidate_id
                        >= self.window_project_groups@.len()
                    ||| row is RecentProject && row->RecentProject_0.candidate_id
                        >= self.workspaces@.len()
                },
            },
            self.selected() is None ==> self.removal() == RemoveAction::Nothing,
    {
    }

    /// The rows that can be deleted are those of stored workspaces, and they stand for them.
    pub proof fn rows_of_workspaces_are_deletable(&self, ix: int)
        ensures
            0 <= ix < self.rows().len() && self.rows()[ix] is RecentProject
                && self.rows()[ix]->RecentProject_0.candidate_id < self.workspaces@.len()
                <==> self.deletable(ix) is Some,
            self.deletable(ix) is Some ==> self.deletable(ix)->0
                == self.rows()[ix]->RecentProject_0.candidate_id,
    {
    }
}

} // verus!
