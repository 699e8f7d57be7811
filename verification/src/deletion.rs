//! Removing rows: what is removed, and which row is selected next.
use crate::delegate::RecentProjectsDelegate;
use crate::listing;
use crate::listing::{MatchRequest, MatchResults};
use crate::model;
use crate::model::{
    EntryView, OpenFolderEntry, ProjectFolderId, ProjectGroupKey, ProjectPickerEntry,
    RecentWorkspace, WorkspaceId, WorktreeId,
};
use crate::seqs;
use vstd::prelude::*;

verus! {

/// The kinds of rows.
#[derive(Clone, Copy, Debug, PartialEq, Eq, Structural)]
pub enum EntryKind {
    Header,
    OpenFolder,
    ProjectGroup,
    Folder,
    RecentProject,
    NewFolder,
}

pub open spec fn kind_of(row: EntryView) -> EntryKind {
    match row {
        EntryView::Header(_) => EntryKind::Header,
        EntryView::OpenFolder { .. } => EntryKind::OpenFolder,
        EntryView::ProjectGroup(_) => EntryKind::ProjectGroup,
        EntryView::Folder { .. } => EntryKind::Folder,
        EntryView::RecentProject(_) => EntryKind::RecentProject,
        EntryView::NewFolder => EntryKind::NewFolder,
    }
}

pub fn entry_kind(entry: &ProjectPickerEntry) -> (r: EntryKind)
    ensures
        r == kind_of(entry@),
{
    match entry {
        ProjectPickerEntry::Header(_) => EntryKind::Header,
        ProjectPickerEntry::OpenFolder { .. } => EntryKind::OpenFolder,
        ProjectPickerEntry::ProjectGroup(_) => EntryKind::ProjectGroup,
        ProjectPickerEntry::Folder { .. } => EntryKind::Folder,
        ProjectPickerEntry::RecentProject(_) => EntryKind::RecentProject,
        ProjectPickerEntry::NewFolder => EntryKind::NewFolder,
    }
}

/// A row that may be selected in place of a removed one: of the given kind, or of any kind that
/// can be selected.
pub open spec fn eligible(row: EntryView, kind: Option<EntryKind>) -> bool {
    match kind {
        Some(k) => kind_of(row) == k,
        None => row.selectable(),
    }
}

/// `i` is the least index from `from` on at which an eligible row stands.
pub open spec fn is_next(
    rows: Seq<EntryView>,
    from: int,
    kind: Option<EntryKind>,
    i: int,
) -> bool {
    &&& from <= i < rows.len()
    &&& eligible(rows[i], kind)
    &&& forall|j: int| from <= j < i ==> !eligible(#[trigger] rows[j], kind)
}

/// `i` is the greatest index below `until` at which an eligible row stands.
pub open spec fn is_previous(
    rows: Seq<EntryView>,
    until: int,
    kind: Option<EntryKind>,
    i: int,
) -> bool {
    &&& 0 <= i < until
    &&& i < rows.len()
    &&& eligible(rows[i], kind)
    &&& forall|j: int| i < j < until && j < rows.len() ==> !eligible(#[trigger] rows[j], kind)
}

pub open spec fn next_index(
    rows: Seq<EntryView>,
    from: int,
    kind: Option<EntryKind>,
) -> Option<usize> {
    if exists|i: int| is_next(rows, from, kind, i) {
        Some((choose|i: int| is_next(rows, from, kind, i)) as usize)
    } else {
        None
    }
}

pub open spec fn previous_index(
    rows: Seq<EntryView>,
    until: int,
    kind: Option<EntryKind>,
) -> Option<usize> {
    if exists|i: int| is_previous(rows, until, kind, i) {
        Some((choose|i: int| is_previous(rows, until, kind, i)) as usize)
    } else {
        None
    }
}

/// The nearest eligible row on the preferred side of `at`, or else on the other side.
pub open spec fn nearest_index(
    rows: Seq<EntryView>,
    at: int,
    prefer_previous: bool,
    kind: Option<EntryKind>,
) -> Option<usize> {
    let next = next_index(rows, at, kind);
    let previous = previous_index(rows, at, kind);
    if prefer_previous {
        match previous {
            Some(i) => Some(i),
            None => next,
        }
    } else {
        match next {
            Some(i) => Some(i),
            None => previous,
        }
    }
}

/// The row to select in place of one that was removed at `at`: the nearest of the preferred
/// kind, or else the nearest that can be selected.
pub open spec fn replacement_index(
    rows: Seq<EntryView>,
    at: int,
    prefer_previous: bool,
    prefer: EntryKind,
) -> Option<usize> {
    match nearest_index(rows, at, prefer_previous, Some(prefer)) {
        Some(i) => Some(i),
        None => nearest_index(rows, at, prefer_previous, None),
    }
}

pub(crate) proof fn lemma_next_index_is(
    rows: Seq<EntryView>,
    from: int,
    kind: Option<EntryKind>,
    i: int,
)
    requires
        is_next(rows, from, kind, i),
    ensures
        next_index(rows, from, kind) == Some(i as usize),
{
    let c = choose|c: int| is_next(rows, from, kind, c);
    assert(is_next(rows, from, kind, c));
    if c < i {
        assert(!eligible(rows[c], kind));
    }
    if i < c {
        assert(!eligible(rows[i], kind));
    }
}

pub(crate) proof fn lemma_previous_index_is(
    rows: Seq<EntryView>,
    until: int,
    kind: Option<EntryKind>,
    i: int,
)
    requires
        is_previous(rows, until, kind, i),
    ensures
        previous_index(rows, until, kind) == Some(i as usize),
{
    let c = choose|c: int| is_previous(rows, until, kind, c);
    assert(is_previous(rows, until, kind, c));
    if c < i {
        assert(!eligible(rows[i], kind));
    }
    if i < c {
        assert(!eligible(rows[c], kind));
    }
}

proof fn lemma_next_exists(rows: Seq<EntryView>, from: int, kind: Option<EntryKind>, i: int)
    requires
        from <= i < rows.len(),
        eligible(rows[i], kind),
    ensures
        exists|k: int| is_next(rows, from, kind, k),
    decreases i - from,
{
    if exists|j: int| from <= j < i && eligible(#[trigger] rows[j], kind) {
        let j = choose|j: int| from <= j < i && eligible(#[trigger] rows[j], kind);
        lemma_next_exists(rows, from, kind, j);
    } else {
        assert(is_next(rows, from, kind, i));
    }
}

proof fn lemma_previous_exists(rows: Seq<EntryView>, until: int, kind: Option<EntryKind>, i: int)
    requires
        0 <= i < until,
        i < rows.len(),
        eligible(rows[i], kind),
    ensures
        exists|k: int| is_previous(rows, until, kind, k),
    decreases until - i,
{
    if exists|j: int| i < j < until && j < rows.len() && eligible(#[trigger] rows[j], kind) {
        let j = choose|j: int|
            i < j < until && j < rows.len() && eligible(#[trigger] rows[j], kind);
        lemma_previous_exists(rows, until, kind, j);
    } else {
        assert(is_previous(rows, until, kind, i));
    }
}

/// The nearest eligible row is an eligible row.
proof fn lemma_nearest_is_eligible(
    rows: Seq<EntryView>,
    at: int,
    prefer_previous: bool,
    kind: Option<EntryKind>,
)
    requires
        rows.len() <= usize::MAX,
        0 <= at,
    ensures
        nearest_index(rows, at, prefer_previous, kind) matches Some(i) ==> i < rows.len()
            && eligible(rows[i as int], kind),
        nearest_index(rows, at, prefer_previous, kind) is None ==> forall|i: int|
            0 <= i < rows.len() ==> !eligible(#[trigger] rows[i], kind),
{
    if exists|i: int| is_next(rows, at, kind, i) {
        let c = choose|c: int| is_next(rows, at, kind, c);
        assert(is_next(rows, at, kind, c));
    }
    if exists|i: int| is_previous(rows, at, kind, i) {
        let c = choose|c: int| is_previous(rows, at, kind, c);
        assert(is_previous(rows, at, kind, c));
    }
    if nearest_index(rows, at, prefer_previous, kind) is None {
        assert forall|i: int| 0 <= i < rows.len() implies !eligible(#[trigger] rows[i], kind) by {
            if eligible(rows[i], kind) {
                if i < at {
                    lemma_previous_exists(rows, at, kind, i);
                } else {
                    lemma_next_exists(rows, at, kind, i);
                }
            }
        }
    }
}

/// The selection stays in its section while the section has rows, lands on a row that can be
/// selected while there is one, and is left alone only where there is none.
pub proof fn replacement_stays_selectable(
    rows: Seq<EntryView>,
    at: int,
    prefer_previous: bool,
    prefer: EntryKind,
)
    requires
        rows.len() <= usize::MAX,
        0 <= at,
        prefer != EntryKind::Header,
    ensures
        replacement_index(rows, at, prefer_previous, prefer) matches Some(i) ==> i < rows.len()
            && rows[i as int].selectable(),
        (exists|i: int| 0 <= i < rows.len() && kind_of(#[trigger] rows[i]) == prefer) ==> (
        replacement_index(rows, at, prefer_previous, prefer) matches Some(i) && kind_of(
            rows[i as int],
        ) == prefer),
        replacement_index(rows, at, prefer_previous, prefer) is None <==> (forall|i: int|
            0 <= i < rows.len() ==> !(#[trigger] rows[i]).selectable()),
{
    lemma_nearest_is_eligible(rows, at, prefer_previous, Some(prefer));
    lemma_nearest_is_eligible(rows, at, prefer_previous, None);
    if exists|i: int| 0 <= i < rows.len() && kind_of(#[trigger] rows[i]) == prefer {
        let i = choose|i: int| 0 <= i < rows.len() && kind_of(#[trigger] rows[i]) == prefer;
        assert(eligible(rows[i], Some(prefer)));
    }
    if forall|i: int| 0 <= i < rows.len() ==> !(#[trigger] rows[i]).selectable() {
        match nearest_index(rows, at, prefer_previous, Some(prefer)) {
            Some(i) => {
                assert(!rows[i as int].selectable());
            },
            None => {},
        }
        match nearest_index(rows, at, prefer_previous, None) {
            Some(i) => {
                assert(!rows[i as int].selectable());
            },
            None => {},
        }
    }
    if replacement_index(rows, at, prefer_previous, prefer) is None {
        assert forall|i: int| 0 <= i < rows.len() implies !(#[trigger] rows[i]).selectable() by {
            assert(!eligible(rows[i], None));
        }
    }
}

/// With rows of the preferred kind on both sides, the row that moved up into the gap is taken,
/// or the one before it where the end of the list is in view.
pub proof fn replacement_is_adjacent(
    rows: Seq<EntryView>,
    at: int,
    prefer_previous: bool,
    prefer: EntryKind,
)
    requires
        rows.len() <= usize::MAX,
        0 < at < rows.len(),
        kind_of(rows[at]) == prefer,
        kind_of(rows[at - 1]) == prefer,
    ensures
        replacement_index(rows, at, prefer_previous, prefer) == Some(
            (if prefer_previous {
                at - 1
            } else {
                at
            }) as usize,
        ),
{
    assert(is_next(rows, at, Some(prefer), at));
    assert(is_previous(rows, at, Some(prefer), at - 1));
    lemma_next_index_is(rows, at, Some(prefer), at);
    lemma_previous_index_is(rows, at, Some(prefer), at - 1);
}

fn is_eligible(entry: &ProjectPickerEntry, kind: Option<EntryKind>) -> (r: bool)
    ensures
        r == eligible(entry@, kind),
{
    match kind {
        Some(k) => entry_kind(entry) == k,
        None => model::is_selectable_entry(entry),
    }
}

/// What the removal of the selected row asks for.
#[derive(Clone, Copy, Debug, PartialEq, Eq, Structural)]
pub enum RemoveAction {
    Nothing,
    /// Remove the folder from the active workspace.
    OpenFolder(WorktreeId),
    /// Remove this group from the window.
    ProjectGroup(usize),
    /// Delete this workspace from the recent ones.
    RecentProject(usize),
    /// Delete the folder.
    Folder(ProjectFolderId),
}

impl RecentProjectsDelegate {
    fn nearest_entry(&self, at: usize, prefer_previous: bool, kind: Option<EntryKind>) -> (r:
        Option<usize>)
        ensures
            r == nearest_index(self.rows(), at as int, prefer_previous, kind),
    {
        let ghost rows = self.rows();
        let n: usize = self.filtered_entries.len();
        let mut next: Option<usize> = None;
        let mut i: usize = at;
        while i < n && next.is_none()
            invariant
                at <= i,
                n == rows.len(),
                rows == self.rows(),
                n == self.filtered_entries@.len(),
                match next {
                    Some(k) => is_next(rows, at as int, kind, k as int),
                    None => (i <= n || i == at) && forall|j: int|
                        at <= j < i && j < n ==> !eligible(#[trigger] rows[j], kind),
                },
            decreases n - i,
        {
            assert(rows[i as int] == self.filtered_entries@[i as int]@);
            if is_eligible(&self.filtered_entries[i], kind) {
                next = Some(i);
                assert(is_next(rows, at as int, kind, i as int));
            }
            i = i + 1;
        }
        proof {
            match next {
                Some(k) => {
                    lemma_next_index_is(rows, at as int, kind, k as int);
                },
                None => {
                    assert forall|k: int| !is_next(rows, at as int, kind, k) by {
                        if is_next(rows, at as int, kind, k) {
                            assert(!eligible(rows[k], kind));
                        }
                    }
                },
            }
        }
        let mut previous: Option<usize> = None;
        let mut until: usize = if at < n {
            at
        } else {
            n
        };
        while until > 0 && previous.is_none()
            invariant
                until <= n,
                until <= at,
                n == rows.len(),
                rows == self.rows(),
                n == self.filtered_entries@.len(),
                match previous {
                    Some(k) => is_previous(rows, at as int, kind, k as int),
                    None => forall|j: int|
                        until <= j < at && j < n ==> !eligible(#[trigger] rows[j], kind),
                },
            decreases until,
        {
            until = until - 1;
            assert(rows[until as int] == self.filtered_entries@[until as int]@);
            if is_eligible(&self.filtered_entries[until], kind) {
                previous = Some(until);
                assert(is_previous(rows, at as int, kind, until as int));
            }
        }
        proof {
            match previous {
                Some(k) => {
                    lemma_previous_index_is(rows, at as int, kind, k as int);
                },
                None => {
                    assert forall|k: int| !is_previous(rows, at as int, kind, k) by {
                        if is_previous(rows, at as int, kind, k) {
                            assert(!eligible(rows[k], kind));
                        }
                    }
                },
            }
        }
        if prefer_previous {
            match previous {
                Some(k) => Some(k),
                None => next,
            }
        } else {
            match next {
                Some(k) => Some(k),
                None => previous,
            }
        }
    }

    /// The selection after the row at `deleted_index` is gone.
    pub fn replacement_index_after_deletion(
        &self,
        deleted_index: usize,
        prefer_previous: bool,
        prefer_section: EntryKind,
    ) -> (r: Option<usize>)
        ensures
            r == replacement_index(
                self.rows(),
                deleted_index as int,
                prefer_previous,
                prefer_section,
            ),
    {
        match self.nearest_entry(deleted_index, prefer_previous, Some(prefer_section)) {
            Some(i) => Some(i),
            None => self.nearest_entry(deleted_index, prefer_previous, None),
        }
    }

    /// Takes in the workspaces that are left after a deletion; says what is to be matched before
    /// they are listed.
    pub fn recent_projects_changed(
        &mut self,
        workspaces: Vec<RecentWorkspace>,
        query: &str,
    ) -> (r: MatchRequest)
        ensures
            *final(self) == (RecentProjectsDelegate { workspaces, ..*old(self) }),
            final(self).requested(query@, &r),
    {
        self.set_workspaces(workspaces);
        self.match_request(query)
    }

    /// Lists the rows after the workspace of the row at `deleted_index` was deleted, and selects
    /// a row in its place. Where the end of the list is in view, the selection moves up.
    pub fn update_picker_after_recent_project_deletion(
        &mut self,
        deleted_index: usize,
        scrolled_to_end: Option<bool>,
        query: &str,
        results: &MatchResults,
        current: Option<WorkspaceId>,
    ) -> (r: Option<usize>)
        ensures
            final(self).same_projects(old(self)),
            final(self).same_edit(old(self)),
            old(self).wf() ==> final(self).wf(),
            final(self).rows() == old(self).listed(
                listing::empty_query(query@),
                results,
                current,
            ),
            final(self).lists_everything == listing::empty_query(query@),
            r == replacement_index(
                final(self).rows(),
                deleted_index as int,
                scrolled_to_end == Some(true),
                EntryKind::RecentProject,
            ),
            final(self).selected_index == (match r {
                Some(i) => i,
                None => old(self).selected_index,
            }),
            final(self).snap_selection_to_first_non_header_match,
    {
        let prefer_previous: bool = match scrolled_to_end {
            Some(at_end) => at_end,
            None => false,
        };
        self.snap_selection_to_first_non_header_match = false;
        proof {
            self.listing_depends_on_projects(
                old(self),
                listing::empty_query(query@),
                results,
                current,
            );
        }
        self.update_matches(query, results, current);
        let r: Option<usize> = self.replacement_index_after_deletion(
            deleted_index,
            prefer_previous,
            EntryKind::RecentProject,
        );
        if let Some(i) = r {
            self.selected_index = i;
        }
        r
    }

    /// The workspace that the row at `ix` stands for, if the row can be deleted.
    pub open spec fn deletable(&self, ix: int) -> Option<usize> {
        if 0 <= ix < self.rows().len() {
            match self.rows()[ix] {
                EntryView::RecentProject(m) if m.candidate_id < self.workspaces@.len() => Some(
                    m.candidate_id,
                ),
                _ => None,
            }
        } else {
            None
        }
    }

    /// The workspace that the row at `ix` stands for, if the row can be deleted.
    pub fn delete_recent_project(&self, ix: usize) -> (r: Option<usize>)
        ensures
            r == self.deletable(ix as int),
    {
        if ix < self.filtered_entries.len() {
            assert(self.rows()[ix as int] == self.filtered_entries@[ix as int]@);
            match &self.filtered_entries[ix] {
                ProjectPickerEntry::RecentProject(hit) => {
                    if hit.candidate_id < self.workspaces.len() {
                        Some(hit.candidate_id)
                    } else {
                        None
                    }
                },
                _ => None,
            }
        } else {
            None
        }
    }

    /// The keys after `old_key` became `new_key`: the first key that equals the old one is
    /// replaced.
    pub open spec fn rekeyed(
        groups: Seq<ProjectGroupKey>,
        old_key: ProjectGroupKey,
        new_key: ProjectGroupKey,
    ) -> Seq<ProjectGroupKey> {
        match seqs::first_index(groups, |key: ProjectGroupKey| key.equal_to(&old_key)) {
            Some(g) => groups.update(g as int, new_key),
            None => groups,
        }
    }

    /// Takes in that a folder was removed from the active workspace, whose group thereby went
    /// from `old_key` to `new_key`.
    pub fn remove_open_folder(
        &mut self,
        old_key: &ProjectGroupKey,
        new_key: ProjectGroupKey,
        open_folders: Vec<OpenFolderEntry>,
    )
        ensures
            final(self).window_project_groups@ == Self::rekeyed(
                old(self).window_project_groups@,
                *old_key,
                new_key,
            ),
            *final(self) == (RecentProjectsDelegate {
                open_folders,
                window_project_groups: final(self).window_project_groups,
                ..*old(self)
            }),
    {
        let ghost groups = self.window_project_groups@;
        let ghost p = |key: ProjectGroupKey| key.equal_to(old_key);
        let mut g: usize = 0;
        while g < self.window_project_groups.len() && !self.window_project_groups[g].is_equal_to(
            old_key,
        )
            invariant
                g <= self.window_project_groups@.len(),
                groups == self.window_project_groups@,
                p == (|key: ProjectGroupKey| key.equal_to(old_key)),
                forall|j: int| 0 <= j < g ==> !p(#[trigger] groups[j]),
            decreases self.window_project_groups@.len() - g,
        {
            g = g + 1;
        }
        if g < self.window_project_groups.len() {
            proof {
                assert(seqs::is_first(groups, p, g as int));
                seqs::lemma_first_index_is(groups, p, g as int);
            }
            self.window_project_groups[g] = new_key;
        } else {
            proof {
                seqs::lemma_first_index_none(groups, p);
            }
        }
        self.set_open_folders(open_folders);
    }

    /// The groups without those that equal `key`.
    pub open spec fn without_group(
        groups: Seq<ProjectGroupKey>,
        key: &ProjectGroupKey,
    ) -> Seq<ProjectGroupKey> {
        groups.filter(|k: ProjectGroupKey| !k.equal_to(key))
    }

    /// Takes a group out of the window: every key that equals `key` goes.
    pub fn remove_project_group(&mut self, key: &ProjectGroupKey)
        ensures
            final(self).window_project_groups@ == Self::without_group(
                old(self).window_project_groups@,
                key,
            ),
            *final(self) == (RecentProjectsDelegate {
                window_project_groups: final(self).window_project_groups,
                ..*old(self)
            }),
    {
        let ghost all = self.window_project_groups@;
        let ghost p = |k: ProjectGroupKey| !k.equal_to(key);
        let ghost mut seen: int = 0;
        let mut g: usize = 0;
        proof {
            reveal(Seq::filter);
            assert(all.take(0).filter(p) =~= Seq::empty());
            assert(all =~= all.take(0).filter(p) + all.skip(0));
        }
        while g < self.window_project_groups.len()
            invariant
                0 <= seen <= all.len(),
                p == (|k: ProjectGroupKey| !k.equal_to(key)),
                g == all.take(seen).filter(p).len(),
                g <= self.window_project_groups@.len(),
                self.window_project_groups@ == all.take(seen).filter(p) + all.skip(seen),
                *self == (RecentProjectsDelegate {
                    window_project_groups: self.window_project_groups,
                    ..*old(self)
                }),
            decreases self.window_project_groups@.len() - g,
        {
            let ghost groups = self.window_project_groups@;
            proof {
                assert(groups[g as int] == all[seen]);
                assert(all.take(seen + 1) =~= all.take(seen).push(all[seen]));
                all.take(seen).lemma_filter_push(all[seen], p);
            }
            if self.window_project_groups[g].is_equal_to(key) {
                let _ = self.window_project_groups.remove(g);
                proof {
                    assert(groups.remove(g as int) =~= all.take(seen + 1).filter(p) + all.skip(
                        seen + 1,
                    ));
                    seen = seen + 1;
                }
            } else {
                g = g + 1;
                proof {
                    assert(groups =~= all.take(seen + 1).filter(p) + all.skip(seen + 1));
                    seen = seen + 1;
                }
            }
        }
        proof {
            assert(all.skip(seen).len() == 0);
            assert(all.take(seen) =~= all);
            assert(self.window_project_groups@ =~= all.filter(p));
        }
    }

    /// What removing the selected row asks for.
    pub open spec fn removal(&self) -> RemoveAction {
        match self.selected() {
            Some(EntryView::OpenFolder { index, .. }) => if index < self.open_folders@.len() {
                RemoveAction::OpenFolder(self.open_folders@[index as int].worktree_id)
            } else {
                RemoveAction::Nothing
            },
            Some(EntryView::ProjectGroup(m)) => if m.candidate_id
                < self.window_project_groups@.len() {
                RemoveAction::ProjectGroup(m.candidate_id)
            } else {
                RemoveAction::Nothing
            },
            Some(EntryView::RecentProject(m)) => if m.candidate_id < self.workspaces@.len() {
                RemoveAction::RecentProject(m.candidate_id)
            } else {
                RemoveAction::Nothing
            },
            Some(EntryView::Folder { folder_id, .. }) => RemoveAction::Folder(folder_id),
            _ => RemoveAction::Nothing,
        }
    }

    /// A group that was removed from the window is no longer in it, and no other group went.
    pub proof fn removed_groups_are_gone(
        groups: Seq<ProjectGroupKey>,
        key: &ProjectGroupKey,
        i: int,
    )
        ensures
            0 <= i < groups.filter(|k: ProjectGroupKey| !k.equal_to(key)).len() ==> !groups.filter(
                |k: ProjectGroupKey| !k.equal_to(key),
            )[i].equal_to(key),
            0 <= i < groups.len() && !groups[i].equal_to(key) ==> groups.filter(
                |k: ProjectGroupKey| !k.equal_to(key),
            ).contains(groups[i]),
    {
        let p = |k: ProjectGroupKey| !k.equal_to(key);
        if 0 <= i < groups.filter(p).len() {
            groups.lemma_filter_pred(p, i);
        }
        if 0 <= i < groups.len() && p(groups[i]) {
            groups.lemma_filter_contains(p, i);
        }
    }
}

} // verus!
