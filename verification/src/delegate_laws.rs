//! What holds of the picker's state: which workspaces are open, and which folder holds a project.
use crate::delegate;
use crate::delegate::RecentProjectsDelegate;
use crate::listing;
use crate::listing_laws;
use crate::model;
use crate::model::{
    EntryView, MatchView, PendingView, ProjectFolderAssignment, ProjectFolderId, ProjectGroupKey,
    RecentWorkspace, RemoteConnection, StringMatch, WorkspaceId,
};
use crate::path::PathList;
use crate::seqs;
use crate::terms;
use vstd::prelude::*;

verus! {

/// Two path lists are the same exactly where their paths have the same components, one by one.
pub proof fn lists_are_compared_by_components(a: PathList, b: PathList)
    ensures
        a@.identity() == b@.identity() <==> terms::same_list(a, b),
{
    if a@.identity() == b@.identity() {
        assert(a@.identity().len() == a.paths@.len());
        assert(b@.identity().len() == b.paths@.len());
        assert forall|i: int| 0 <= i < a.paths@.len() implies (#[trigger] a.paths@[i])@.components
            == b.paths@[i]@.components by {
            assert(a@.identity()[i] == a.paths@[i]@.components);
            assert(b@.identity()[i] == b.paths@[i]@.components);
        }
    }
    if terms::same_list(a, b) {
        assert(a@.identity() =~= b@.identity());
    }
}

proof fn lemma_files_under(text: Seq<char>, host: Option<RemoteConnection>)
    ensures
        terms::files_under(text, host) <==> text == model::folder_identity(host),
{
    if text.len() == 0 {
        assert(text =~= Seq::<char>::empty());
    }
}

pub(crate) proof fn lemma_assigns(a: ProjectFolderAssignment, w: RecentWorkspace)
    ensures
        terms::assigns(a, w) <==> a.fits(
            model::folder_identity(w.host()),
            w.identity_paths@.identity(),
        ),
{
    lemma_files_under(a.remote_identity@, w.host());
    lists_are_compared_by_components(a.identity_paths, w.identity_paths);
}

pub(crate) proof fn lemma_assigns_group(a: ProjectFolderAssignment, key: ProjectGroupKey)
    ensures
        terms::assigns_group(a, key) <==> a.fits(
            model::folder_identity(key.host),
            key.paths@.identity(),
        ),
{
    lemma_files_under(a.remote_identity@, key.host);
    lists_are_compared_by_components(a.identity_paths, key.paths);
}

pub(crate) proof fn lemma_filed_alike(w: RecentWorkspace, key: ProjectGroupKey)
    ensures
        terms::filed_alike(w, key) <==> model::folder_identity(w.host()) == model::folder_identity(
            key.host,
        ) && w.identity_paths@.identity() == key.paths@.identity(),
{
    lists_are_compared_by_components(w.identity_paths, key.paths);
    if terms::filed_alike(w, key) {
        let text = model::folder_identity(w.host());
        lemma_files_under(text, w.host());
        lemma_files_under(text, key.host);
        assert(terms::files_under(text, key.host));
    }
    if model::folder_identity(w.host()) == model::folder_identity(key.host) {
        assert forall|text: Seq<char>|
            terms::files_under(text, terms::host_of(w.location)) <==> #[trigger] terms::files_under(
                text,
                key.host,
            ) by {
            lemma_files_under(text, w.host());
            lemma_files_under(text, key.host);
        }
    }
}

pub(crate) proof fn lemma_found(hits: Seq<StringMatch>, id: usize)
    ensures
        model::matched(seqs::views(hits), id) <==> terms::found(hits, id),
{
    let all = seqs::views(hits);
    if terms::found(hits, id) {
        let i = choose|i: int| 0 <= i < hits.len() && (#[trigger] hits[i]).candidate_id == id;
        assert(all[i].candidate_id == id);
    }
    if model::matched(all, id) {
        let i = choose|i: int| 0 <= i < all.len() && (#[trigger] all[i]).candidate_id == id;
        assert(hits[i].candidate_id == id);
    }
}

proof fn lemma_last_match(hits: Seq<StringMatch>, id: usize)
    ensures
        match model::last_match(seqs::views(hits), id) {
            Some(m) => m.candidate_id == id && terms::highlights_of(hits, m),
            None => !terms::found(hits, id),
        },
    decreases hits.len(),
{
    let all = seqs::views(hits);
    if hits.len() > 0 {
        let front = hits.drop_last();
        assert(all.drop_last() =~= seqs::views(front));
        assert(all.last() == hits.last()@);
        if hits.last().candidate_id == id {
            let i = hits.len() - 1;
            assert(hits[i]@ == hits.last()@);
        } else {
            lemma_last_match(front, id);
            match model::last_match(seqs::views(front), id) {
                Some(m) => {
                    if terms::found(front, id) && exists|i: int|
                        0 <= i < front.len() && (#[trigger] front[i])@ == m && forall|j: int|
                            i < j < front.len() ==> (#[trigger] front[j]).candidate_id
                                != m.candidate_id {
                        let i = choose|i: int|
                            0 <= i < front.len() && (#[trigger] front[i])@ == m && forall|j: int|
                                i < j < front.len() ==> (#[trigger] front[j]).candidate_id
                                    != m.candidate_id;
                        assert(hits[i] == front[i]);
                        assert forall|j: int| i < j < hits.len() implies (
                        #[trigger] hits[j]).candidate_id != m.candidate_id by {
                            if j < front.len() {
                                assert(hits[j] == front[j]);
                            }
                        }
                    } else {
                        if terms::found(hits, id) {
                            let i = choose|i: int|
                                0 <= i < hits.len() && (#[trigger] hits[i]).candidate_id == id;
                            assert(front[i].candidate_id == id);
                        }
                    }
                },
                None => {
                    if terms::found(hits, id) {
                        let i = choose|i: int|
                            0 <= i < hits.len() && (#[trigger] hits[i]).candidate_id == id;
                        assert(front[i].candidate_id == id);
                    }
                },
            }
        }
    }
}

/// A candidate is highlighted as its last match says; without a match nothing is.
pub proof fn candidates_are_highlighted_by_their_last_match(hits: Seq<StringMatch>, id: usize)
    ensures
        model::match_for(seqs::views(hits), id).candidate_id == id,
        terms::highlights_of(hits, model::match_for(seqs::views(hits), id)),
{
    lemma_last_match(hits, id);
}

impl RecentProjectsDelegate {
    /// A workspace is open as a folder where one of its paths has exactly the components of an
    /// open folder's path, at the same place.
    pub proof fn open_paths_are_open(&self, workspace: &RecentWorkspace, p: int, f: int)
        requires
            0 <= p < workspace.paths.paths@.len(),
            0 <= f < self.open_folders@.len(),
            workspace.paths.paths@[p]@.components == self.open_folders@[f].path@.components,
            terms::same_place(
                terms::host_of(workspace.location),
                self.open_folders@[f].connection_options,
            ),
        ensures
            self.open_as_folder(workspace),
    {
        assert(self.open_at(workspace, p, f));
    }

    /// It is not where no path of it has exactly the components of an open folder's path at the
    /// same place: a folder above or below it, or one elsewhere, does not count.
    pub proof fn other_paths_are_not_open(&self, workspace: &RecentWorkspace)
        requires
            forall|p: int, f: int|
                0 <= p < workspace.paths.paths@.len() && 0 <= f < self.open_folders@.len()
                    && terms::same_place(
                    terms::host_of(workspace.location),
                    self.open_folders@[f].connection_options,
                ) ==> (#[trigger] workspace.paths.paths@[p])@.components
                    != (#[trigger] self.open_folders@[f]).path@.components,
        ensures
            !self.open_as_folder(workspace),
    {
        if self.open_as_folder(workspace) {
            let (p, f) = choose|p: int, f: int| self.open_at(workspace, p, f);
            assert(self.open_at(workspace, p, f));
            let _ = workspace.paths.paths@[p];
            let _ = self.open_folders@[f];
            assert(false);
        }
    }

    /// A workspace is in the window where one of its groups is at the same place and has the
    /// same paths.
    pub proof fn groups_stand_for_workspaces(&self, workspace: &RecentWorkspace, g: int)
        requires
            0 <= g < self.window_project_groups@.len(),
            terms::same_place(
                self.window_project_groups@[g].host,
                terms::host_of(workspace.location),
            ),
            terms::same_list(self.window_project_groups@[g].paths, workspace.identity_paths),
        ensures
            self.in_window(workspace),
    {
        lists_are_compared_by_components(
            self.window_project_groups@[g].paths,
            workspace.identity_paths,
        );
        assert(model::same_host(self.window_project_groups@[g].host, workspace.host()));
    }

    /// It is not where no group is at the same place and has the same paths.
    pub proof fn other_groups_do_not(&self, workspace: &RecentWorkspace)
        requires
            forall|g: int|
                0 <= g < self.window_project_groups@.len() && terms::same_place(
                    (#[trigger] self.window_project_groups@[g]).host,
                    terms::host_of(workspace.location),
                ) ==> !terms::same_list(
                    self.window_project_groups@[g].paths,
                    workspace.identity_paths,
                ),
        ensures
            !self.in_window(workspace),
    {
        if self.in_window(workspace) {
            let g = choose|g: int|
                0 <= g < self.window_project_groups@.len() && model::same_host(
                    (#[trigger] self.window_project_groups@[g]).host,
                    workspace.host(),
                ) && self.window_project_groups@[g].paths@.identity()
                    == workspace.identity_paths@.identity();
            lists_are_compared_by_components(
                self.window_project_groups@[g].paths,
                workspace.identity_paths,
            );
        }
    }

    /// A workspace is offered exactly where it is not the current one, no group of the window
    /// stands for it and no path of it is open.
    pub proof fn workspaces_are_offered_unless_open(
        &self,
        workspace: &RecentWorkspace,
        current: Option<WorkspaceId>,
    )
        ensures
            self.candidate(workspace, current) <==> {
                &&& current is Some ==> current->0 != workspace.workspace_id
                &&& forall|g: int|
                    0 <= g < self.window_project_groups@.len() && terms::same_place(
                        (#[trigger] self.window_project_groups@[g]).host,
                        terms::host_of(workspace.location),
                    ) ==> !terms::same_list(
                        self.window_project_groups@[g].paths,
                        workspace.identity_paths,
                    )
                &&& forall|p: int, f: int|
                    0 <= p < workspace.paths.paths@.len() && 0 <= f < self.open_folders@.len()
                        && terms::same_place(
                        terms::host_of(workspace.location),
                        self.open_folders@[f].connection_options,
                    ) ==> (#[trigger] workspace.paths.paths@[p])@.components
                        != (#[trigger] self.open_folders@[f]).path@.components
            },
    {
        if self.candidate(workspace, current) {
            assert forall|g: int|
                0 <= g < self.window_project_groups@.len() && terms::same_place(
                    (#[trigger] self.window_project_groups@[g]).host,
                    terms::host_of(workspace.location),
                ) implies !terms::same_list(
                self.window_project_groups@[g].paths,
                workspace.identity_paths,
            ) by {
                if terms::same_list(
                    self.window_project_groups@[g].paths,
                    workspace.identity_paths,
                ) {
                    self.groups_stand_for_workspaces(workspace, g);
                }
            }
            assert forall|p: int, f: int|
                0 <= p < workspace.paths.paths@.len() && 0 <= f < self.open_folders@.len()
                    && terms::same_place(
                    terms::host_of(workspace.location),
                    self.open_folders@[f].connection_options,
                ) implies (#[trigger] workspace.paths.paths@[p])@.components
                != (#[trigger] self.open_folders@[f]).path@.components by {
                if workspace.paths.paths@[p]@.components == self.open_folders@[f].path@.components {
                    self.open_paths_are_open(workspace, p, f);
                }
            }
        } else {
            if forall|g: int|
                0 <= g < self.window_project_groups@.len() && terms::same_place(
                    (#[trigger] self.window_project_groups@[g]).host,
                    terms::host_of(workspace.location),
                ) ==> !terms::same_list(
                    self.window_project_groups@[g].paths,
                    workspace.identity_paths,
                ) {
                self.other_groups_do_not(workspace);
            }
            if forall|p: int, f: int|
                0 <= p < workspace.paths.paths@.len() && 0 <= f < self.open_folders@.len()
                    && terms::same_place(
                    terms::host_of(workspace.location),
                    self.open_folders@[f].connection_options,
                ) ==> (#[trigger] workspace.paths.paths@[p])@.components
                    != (#[trigger] self.open_folders@[f]).path@.components {
                self.other_paths_are_not_open(workspace);
            }
        }
    }

    /// A group is in the folder of the first assignment with its host and paths; without one it
    /// is in no folder.
    pub proof fn the_first_assignment_files_a_group(&self, key: &ProjectGroupKey, k: int)
        ensures
            terms::first_to_assign(self.assignments@, *key, k) ==> self.group_folder(key) == Some(
                self.assignments@[k].folder_id,
            ),
            (forall|j: int|
                0 <= j < self.assignments@.len() ==> !terms::assigns_group(
                    #[trigger] self.assignments@[j],
                    *key,
                )) ==> self.group_folder(key) is None,
    {
        let identity = model::folder_identity(key.host);
        let paths = key.paths@.identity();
        let p = |a: ProjectFolderAssignment| a.fits(identity, paths);
        assert(self.assignments@.len() == self.assignments.len());
        assert forall|j: int| 0 <= j < self.assignments@.len() implies p(
            #[trigger] self.assignments@[j],
        ) == terms::assigns_group(self.assignments@[j], *key) by {
            lemma_assigns_group(self.assignments@[j], *key);
        }
        if terms::first_to_assign(self.assignments@, *key, k) {
            assert(seqs::is_first(self.assignments@, p, k));
            seqs::lemma_first_index_is(self.assignments@, p, k);
        }
        if forall|j: int|
            0 <= j < self.assignments@.len() ==> !terms::assigns_group(
                #[trigger] self.assignments@[j],
                *key,
            ) {
            seqs::lemma_first_index_none(self.assignments@, p);
        }
    }

    /// The assignment that files a group.
    pub(crate) proof fn lemma_filing_assignment(&self, key: &ProjectGroupKey) -> (k: int)
        requires
            self.group_folder(key) is Some,
        ensures
            terms::first_to_assign(self.assignments@, *key, k),
            self.group_folder(key) == Some(self.assignments@[k].folder_id),
    {
        let identity = model::folder_identity(key.host);
        let paths = key.paths@.identity();
        let p = |a: ProjectFolderAssignment| a.fits(identity, paths);
        assert(self.assignments@.len() == self.assignments.len());
        let k = choose|k: int| seqs::is_first(self.assignments@, p, k);
        assert(seqs::is_first(self.assignments@, p, k));
        seqs::lemma_first_index_is(self.assignments@, p, k);
        assert forall|j: int| 0 <= j <= k implies p(#[trigger] self.assignments@[j])
            == terms::assigns_group(self.assignments@[j], *key) by {
            lemma_assigns_group(self.assignments@[j], *key);
        }
        k
    }

    /// A workspace is in the folder of the first assignment with its host and paths; without one
    /// it is in no folder.
    pub proof fn the_first_assignment_files_a_workspace(&self, w: &RecentWorkspace, k: int)
        ensures
            0 <= k < self.assignments@.len() && terms::assigns(self.assignments@[k], *w) && (
            forall|j: int|
                0 <= j < k ==> !terms::assigns(#[trigger] self.assignments@[j], *w))
                ==> self.workspace_folder(w) == Some(self.assignments@[k].folder_id),
            (forall|j: int|
                0 <= j < self.assignments@.len() ==> !terms::assigns(
                    #[trigger] self.assignments@[j],
                    *w,
                )) ==> self.workspace_folder(w) is None,
    {
        let identity = model::folder_identity(w.host());
        let paths = w.identity_paths@.identity();
        let p = |a: ProjectFolderAssignment| a.fits(identity, paths);
        assert(self.assignments@.len() == self.assignments.len());
        assert forall|j: int| 0 <= j < self.assignments@.len() implies p(
            #[trigger] self.assignments@[j],
        ) == terms::assigns(self.assignments@[j], *w) by {
            lemma_assigns(self.assignments@[j], *w);
        }
        if 0 <= k < self.assignments@.len() && terms::assigns(self.assignments@[k], *w) && (
        forall|j: int| 0 <= j < k ==> !terms::assigns(#[trigger] self.assignments@[j], *w)) {
            assert(seqs::is_first(self.assignments@, p, k));
            seqs::lemma_first_index_is(self.assignments@, p, k);
        }
        if forall|j: int|
            0 <= j < self.assignments@.len() ==> !terms::assigns(
                #[trigger] self.assignments@[j],
                *w,
            ) {
            seqs::lemma_first_index_none(self.assignments@, p);
        }
    }

    pub(crate) proof fn lemma_assigned_workspace(&self, k: int, id: usize)
        requires
            0 <= k < self.assignments@.len(),
        ensures
            self.assigned_workspace(k) == Some(id) <==> terms::assigns_first(
                self.assignments@[k],
                self.workspaces@,
                id as int,
            ),
    {
        let a = self.assignments@[k];
        let p = Self::speaks_of(a);
        assert(self.workspaces@.len() == self.workspaces.len());
        assert forall|j: int| 0 <= j < self.workspaces@.len() implies p(
            #[trigger] self.workspaces@[j],
        ) == terms::assigns(a, self.workspaces@[j]) by {
            lemma_assigns(a, self.workspaces@[j]);
        }
        if terms::assigns_first(a, self.workspaces@, id as int) {
            assert(seqs::is_first(self.workspaces@, p, id as int));
            seqs::lemma_first_index_is(self.workspaces@, p, id as int);
        }
        if self.assigned_workspace(k) == Some(id) {
            let i = choose|i: int| seqs::is_first(self.workspaces@, p, i);
            assert(seqs::is_first(self.workspaces@, p, i));
            seqs::lemma_first_index_is(self.workspaces@, p, i);
            assert(i == id);
        }
    }

    pub(crate) proof fn lemma_represented(&self, key: &ProjectGroupKey)
        ensures
            self.represented(key) <==> exists|w: int|
                0 <= w < self.workspaces@.len() && terms::filed_alike(
                    #[trigger] self.workspaces@[w],
                    *key,
                ),
    {
        assert forall|w: int| 0 <= w < self.workspaces@.len() implies (terms::filed_alike(
            #[trigger] self.workspaces@[w],
            *key,
        ) <==> model::folder_identity(self.workspaces@[w].host()) == model::folder_identity(
            key.host,
        ) && self.workspaces@[w].identity_paths@.identity() == key.paths@.identity()) by {
            lemma_filed_alike(self.workspaces@[w], *key);
        }
        if self.represented(key) {
            let w = choose|w: int|
                0 <= w < self.workspaces@.len() && model::folder_identity(
                    (#[trigger] self.workspaces@[w]).host(),
                ) == model::folder_identity(key.host)
                    && self.workspaces@[w].identity_paths@.identity() == key.paths@.identity();
            assert(terms::filed_alike(self.workspaces@[w], *key));
        }
    }

    pub(crate) proof fn lemma_folder_found(&self, hits: Seq<StringMatch>, id: ProjectFolderId)
        ensures
            self.name_matched(id, seqs::views(hits)) <==> terms::folder_found(
                self.folders@,
                hits,
                id,
            ),
    {
        let all = seqs::views(hits);
        if terms::folder_found(self.folders@, hits, id) {
            let k = choose|k: int|
                0 <= k < hits.len() && (#[trigger] hits[k]).candidate_id < self.folders@.len()
                    && self.folders@[hits[k].candidate_id as int].folder_id == id;
            assert(all[k].candidate_id == hits[k].candidate_id);
        }
        if self.name_matched(id, all) {
            let k = choose|k: int|
                0 <= k < all.len() && (#[trigger] all[k]).candidate_id < self.folders@.len()
                    && self.folders@[all[k].candidate_id as int].folder_id == id;
            assert(all[k].candidate_id == hits[k].candidate_id);
        }
    }

    /// The project that is filed is the one that the selected row stands for; rows that stand
    /// for no stored workspace or group of the window have none.
    pub proof fn the_selected_project_is_filed(&self)
        ensures
            match self.selected() {
                Some(EntryView::RecentProject(m)) if m.candidate_id < self.workspaces@.len() => {
                    let w = self.workspaces@[m.candidate_id as int];
                    &&& self.selected_project() is Some
                    &&& terms::files_under(
                        self.selected_project()->0.remote_identity,
                        terms::host_of(w.location),
                    )
                    &&& self.selected_project()->0.identity_paths == w.identity_paths@
                },
                Some(EntryView::ProjectGroup(m)) if m.candidate_id
                    < self.window_project_groups@.len() => {
                    let key = self.window_project_groups@[m.candidate_id as int];
                    &&& self.selected_project() is Some
                    &&& terms::files_under(self.selected_project()->0.remote_identity, key.host)
                    &&& self.selected_project()->0.identity_paths == key.paths@
                },
                _ => self.selected_project() is None,
            },
    {
    }

    /// A row is remote exactly where it stands for an open folder, a group or a workspace on a
    /// host.
    pub proof fn rows_on_hosts_are_remote(&self, index: usize, positions: Seq<usize>, m: MatchView)
        ensures
            self.remote_row(EntryView::OpenFolder { index, positions }) <==> index
                < self.open_folders@.len() && self.open_folders@[index as int].connection_options
                is Some,
            self.remote_row(EntryView::ProjectGroup(m)) <==> m.candidate_id
                < self.window_project_groups@.len()
                && self.window_project_groups@[m.candidate_id as int].host is Some,
            self.remote_row(EntryView::RecentProject(m)) <==> m.candidate_id
                < self.workspaces@.len() && self.workspaces@[m.candidate_id as int].location
                is Remote,
            !self.remote_row(EntryView::NewFolder),
    {
    }

    /// A group is active where it has the options and the paths of the active one.
    pub proof fn the_active_group_is_active(key: &ProjectGroupKey, active: Option<ProjectGroupKey>)
        ensures
            Self::active_group(key, active) <==> active is Some && terms::reached_alike(
                key.host,
                active->0.host,
            ) && terms::same_list(key.paths, active->0.paths),
    {
        if active is Some {
            lists_are_compared_by_components(key.paths, active->0.paths);
        }
    }
}

} // verus!
