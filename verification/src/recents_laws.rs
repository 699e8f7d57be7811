//! What holds of the list of recent projects: which workspaces have an entry, and what the entry
//! says.
use crate::model::{RecentWorkspace, WorkspaceId};
use crate::path;
use crate::path::{ComponentView, PathView, ProjectPath};
use crate::recents;
use crate::recents::{LabelRequest, RecentProjectEntry};
use crate::seqs;
use crate::text_laws;
use vstd::prelude::*;

verus! {

/// The entry has the key, the time and the paths of the workspace.
pub open spec fn entry_of(e: RecentProjectEntry, w: RecentWorkspace) -> bool {
    &&& e.workspace_id == w.workspace_id
    &&& e.timestamp == w.timestamp
    &&& e.paths@.len() == w.paths.paths@.len()
    &&& forall|i: int| 0 <= i < e.paths@.len() ==> (#[trigger] e.paths@[i])@ == w.paths.paths@[i]@
}

proof fn lemma_entry_of(e: RecentProjectEntry, w: RecentWorkspace, labels: Seq<Seq<char>>)
    requires
        e.describes(&w, labels),
    ensures
        entry_of(e, w),
{
    let a = seqs::views(e.paths@);
    let b = w.paths@.paths;
    assert(a.len() == b.len());
    assert forall|i: int| 0 <= i < e.paths@.len() implies (#[trigger] e.paths@[i])@
        == w.paths.paths@[i]@ by {
        assert(a[i] == b[i]);
    }
}

/// Without a limit every local workspace but the current one has an entry, whatever its paths.
pub proof fn local_workspaces_have_entries(
    workspaces: &Vec<RecentWorkspace>,
    current: Option<WorkspaceId>,
    labels: Seq<Vec<String>>,
    r: Seq<RecentProjectEntry>,
    w: int,
)
    requires
        recents::recent_entries(workspaces@, current, None, labels, r),
        0 <= w < workspaces@.len(),
        workspaces@[w].location is Local,
        current != Some(workspaces@[w].workspace_id),
    ensures
        exists|k: int| 0 <= k < r.len() && entry_of(#[trigger] r[k], workspaces@[w]),
{
    let p = recents::listed_at(workspaces@, current);
    let ids = recents::listed_ids(workspaces@, current);
    assert(workspaces@.len() == workspaces.len());
    seqs::lemma_index_filter(workspaces@.len(), p);
    assert(p(w as usize as int));
    let k = choose|k: int| 0 <= k < ids.len() && ids[k] == w as usize;
    assert(r[k].describes(&workspaces@[w], recents::labels_at(labels, k)));
    lemma_entry_of(r[k], workspaces@[w], recents::labels_at(labels, k));
}

/// Whatever the limit, every entry is of a local workspace other than the current one; the
/// entries come in the order of the workspaces, none twice.
pub proof fn entries_are_of_local_workspaces(
    workspaces: &Vec<RecentWorkspace>,
    current: Option<WorkspaceId>,
    limit: Option<usize>,
    labels: Seq<Vec<String>>,
    r: Seq<RecentProjectEntry>,
    j: int,
    k: int,
) -> (at: (int, int))
    requires
        recents::recent_entries(workspaces@, current, limit, labels, r),
        0 <= j < r.len(),
        0 <= k < r.len(),
    ensures
        0 <= at.0 < workspaces@.len(),
        0 <= at.1 < workspaces@.len(),
        j < k <==> at.0 < at.1,
        entry_of(r[j], workspaces@[at.0]),
        entry_of(r[k], workspaces@[at.1]),
        workspaces@[at.0].location is Local,
        current != Some(workspaces@[at.0].workspace_id),
{
    let p = recents::listed_at(workspaces@, current);
    let ids = recents::listed_ids(workspaces@, current);
    assert(workspaces@.len() == workspaces.len());
    seqs::lemma_index_filter(workspaces@.len(), p);
    assert(p(ids[j] as int));
    assert(r[j].describes(&workspaces@[ids[j] as int], recents::labels_at(labels, j)));
    assert(r[k].describes(&workspaces@[ids[k] as int], recents::labels_at(labels, k)));
    lemma_entry_of(r[j], workspaces@[ids[j] as int], recents::labels_at(labels, j));
    lemma_entry_of(r[k], workspaces@[ids[k] as int], recents::labels_at(labels, k));
    if j < k {
        assert(ids[j] < ids[k]);
    }
    if k < j {
        assert(ids[k] < ids[j]);
    }
    (ids[j] as int, ids[k] as int)
}

/// A limit cuts the list off: what is left of it is as it is without a limit.
pub proof fn limits_cut_the_list_off(
    workspaces: Seq<RecentWorkspace>,
    current: Option<WorkspaceId>,
    limit: usize,
    labels: Seq<Vec<String>>,
    all: Seq<RecentProjectEntry>,
    r: Seq<RecentProjectEntry>,
)
    requires
        recents::recent_entries(workspaces, current, None, labels, all),
        recents::recent_entries(workspaces, current, Some(limit), labels, r),
    ensures
        r.len() <= all.len(),
        r.len() <= limit,
        r.len() == limit || r.len() == all.len(),
        forall|k: int|
            0 <= k < r.len() ==> (#[trigger] r[k]).workspace_id == all[k].workspace_id && r[k].name@
                == all[k].name@ && r[k].full_path@ == all[k].full_path@ && r[k].timestamp
                == all[k].timestamp && seqs::views(r[k].paths@) == seqs::views(all[k].paths@),
{
    let ids = recents::listed_ids(workspaces, current);
    assert forall|k: int| 0 <= k < r.len() implies (#[trigger] r[k]).workspace_id
        == all[k].workspace_id && r[k].name@ == all[k].name@ && r[k].full_path@ == all[k].full_path@
        && r[k].timestamp == all[k].timestamp && seqs::views(r[k].paths@) == seqs::views(
        all[k].paths@,
    ) by {
        assert(r[k].describes(&workspaces[ids[k] as int], recents::labels_at(labels, k)));
        assert(all[k].describes(&workspaces[ids[k] as int], recents::labels_at(labels, k)));
    }
}

/// An entry is named by its labels, those that say nothing left out, with a comma and a blank
/// between them; without labels it has no name. Its full path has the text of each path on a
/// line, in the order of display.
pub proof fn entries_say_their_labels_and_paths(
    workspaces: &Vec<RecentWorkspace>,
    current: Option<WorkspaceId>,
    limit: Option<usize>,
    labels: Seq<Vec<String>>,
    r: Seq<RecentProjectEntry>,
    k: int,
) -> (x: (int, Seq<Seq<char>>, Seq<int>, Seq<int>))
    requires
        recents::recent_entries(workspaces@, current, limit, labels, r),
        0 <= k < r.len(),
    ensures
        0 <= x.0 < workspaces@.len(),
        entry_of(r[k], workspaces@[x.0]),
        k < labels.len() ==> x.1 == seqs::views(labels[k]@).filter(|l: Seq<char>| l.len() > 0),
        k >= labels.len() ==> x.1.len() == 0,
        text_laws::strung(x.1, seq![',', ' '], r[k].name@, x.2),
        text_laws::strung(
            Seq::new(
                workspaces@[x.0].identity_paths.ordered_paths@.len(),
                |i: int| workspaces@[x.0].identity_paths.ordered_paths@[i].text@,
            ),
            seq!['\n'],
            r[k].full_path@,
            x.3,
        ),
{
    let p = recents::listed_at(workspaces@, current);
    let ids = recents::listed_ids(workspaces@, current);
    let here = recents::labels_at(labels, k);
    assert(workspaces@.len() == workspaces.len());
    seqs::lemma_index_filter(workspaces@.len(), p);
    let w = ids[k] as int;
    assert(r[k].describes(&workspaces@[w], here));
    lemma_entry_of(r[k], workspaces@[w], here);
    let q = |l: Seq<char>| l.len() > 0;
    assert(recents::says_something() =~= q);
    let kept = here.filter(q);
    if k >= labels.len() {
        reveal(Seq::filter);
        assert(here =~= Seq::empty());
    }
    reveal_strlit(", ");
    reveal_strlit("\n");
    assert(", "@ =~= seq![',', ' ']);
    assert("\n"@ =~= seq!['\n']);
    let names = text_laws::joined_texts_are_strung(kept, ", "@);
    let shown = workspaces@[w].identity_paths@.ordered_paths;
    let texts = Seq::new(
        workspaces@[w].identity_paths.ordered_paths@.len(),
        |i: int| workspaces@[w].identity_paths.ordered_paths@[i].text@,
    );
    assert(texts =~= Seq::new(shown.len(), |i: int| shown[i].text));
    let lines = text_laws::joined_texts_are_strung(texts, "\n"@);
    (w, kept, names, lines)
}

/// Every path of a local workspace but the current one is among those to tell apart.
pub proof fn paths_of_local_workspaces_are_told_apart(
    workspaces: Seq<RecentWorkspace>,
    current: Option<WorkspaceId>,
    r: Seq<ProjectPath>,
    w: int,
    p: int,
) -> (i: int)
    requires
        recents::listed_paths(workspaces, current, r),
        0 <= w < workspaces.len(),
        workspaces[w].location is Local,
        current != Some(workspaces[w].workspace_id),
        0 <= p < workspaces[w].identity_paths.paths@.len(),
    ensures
        0 <= i < r.len(),
        r[i]@.components == workspaces[w].identity_paths.paths@[p]@.components,
{
    let key = workspaces[w].identity_paths.paths@[p]@.components;
    assert(recents::names_path(workspaces, current, key, w, p));
    assert(recents::path_listed(workspaces, current, key));
    assert(path::holds_path(seqs::views(r), key));
    choose|i: int|
        0 <= i < seqs::views(r).len() && (#[trigger] seqs::views(r)[i]).components == key
}

/// Every path to tell apart is one of a local workspace but the current one; none comes twice.
pub proof fn paths_to_tell_apart_are_of_local_workspaces(
    workspaces: Seq<RecentWorkspace>,
    current: Option<WorkspaceId>,
    r: Seq<ProjectPath>,
    i: int,
) -> (x: (int, int))
    requires
        recents::listed_paths(workspaces, current, r),
        0 <= i < r.len(),
    ensures
        0 <= x.0 < workspaces.len(),
        workspaces[x.0].location is Local,
        current != Some(workspaces[x.0].workspace_id),
        0 <= x.1 < workspaces[x.0].identity_paths.paths@.len(),
        workspaces[x.0].identity_paths.paths@[x.1]@ == r[i]@,
        forall|j: int|
            0 <= j < r.len() && j != i ==> (#[trigger] r[j])@.components != r[i]@.components,
{
    let v = r[i]@;
    assert(recents::from_listed(workspaces, current, v));
    path::lemma_path_order();
    let views = seqs::views(r);
    assert forall|j: int| 0 <= j < r.len() && j != i implies (#[trigger] r[j])@.components
        != r[i]@.components by {
        assert(views[i] == r[i]@ && views[j] == r[j]@);
        if i < j {
            assert(path::path_before(views[i].components, views[j].components));
        } else {
            assert(path::path_before(views[j].components, views[i].components));
        }
    }
    choose|w: int, p: int|
        #[trigger] recents::names_path(workspaces, current, v.components, w, p)
            && workspaces[w].identity_paths.paths@[p]@ == v
}

/// Labels are wanted for exactly the workspaces that have entries, in the same order: those of
/// entry `k` are for the paths that its full path shows. The detail of each is the one at the
/// place of its path, or 0 for a path that was not told apart.
pub proof fn labels_are_wanted_for_the_entries(
    workspaces: &Vec<RecentWorkspace>,
    current: Option<WorkspaceId>,
    all_paths: Seq<PathView>,
    details: Seq<usize>,
    labels: Seq<Vec<String>>,
    wanted: Seq<Vec<LabelRequest>>,
    r: Seq<RecentProjectEntry>,
    k: int,
) -> (w: int)
    requires
        recents::wanted_labels(workspaces@, current, all_paths, details, wanted),
        recents::recent_entries(workspaces@, current, None, labels, r),
        all_paths.len() <= usize::MAX,
    ensures
        wanted.len() == r.len(),
        0 <= k < r.len() ==> {
            &&& 0 <= w < workspaces@.len()
            &&& entry_of(r[k], workspaces@[w])
            &&& wanted[k]@.len() == workspaces@[w].identity_paths.ordered_paths@.len()
            &&& forall|i: int|
                0 <= i < wanted[k]@.len() ==> (#[trigger] wanted[k]@[i]).path@
                    == workspaces@[w].identity_paths.ordered_paths@[i]@
            &&& forall|i: int, j: int|
                0 <= i < wanted[k]@.len() && 0 <= j < all_paths.len() && j < details.len()
                    && all_paths[j].components == wanted[k]@[i].path@.components && (forall|l: int|
                    0 <= l < j ==> (#[trigger] all_paths[l]).components
                        != wanted[k]@[i].path@.components) ==> (#[trigger] wanted[k]@[i]).detail
                    == #[trigger] details[j]
            &&& forall|i: int|
                0 <= i < wanted[k]@.len() && (forall|j: int|
                    0 <= j < all_paths.len() ==> (#[trigger] all_paths[j]).components
                        != wanted[k]@[i].path@.components) ==> (#[trigger] wanted[k]@[i]).detail
                    == 0
        },
{
    let ids = recents::listed_ids(workspaces@, current);
    let p = recents::listed_at(workspaces@, current);
    assert(workspaces@.len() == workspaces.len());
    seqs::lemma_index_filter(workspaces@.len(), p);
    if 0 <= k < r.len() {
        let w = ids[k] as int;
        assert(r[k].describes(&workspaces@[w], recents::labels_at(labels, k)));
        lemma_entry_of(r[k], workspaces@[w], recents::labels_at(labels, k));
        let shown = workspaces@[w].identity_paths@.ordered_paths;
        let views = seqs::views(wanted[k]@);
        assert(views == recents::label_requests(shown, all_paths, details));
        assert forall|i: int| 0 <= i < wanted[k]@.len() implies (#[trigger] wanted[k]@[i]).path@
            == workspaces@[w].identity_paths.ordered_paths@[i]@ && wanted[k]@[i].detail
            == recents::detail_of(all_paths, details, wanted[k]@[i].path@.components) by {
            assert(views[i] == wanted[k]@[i]@);
        }
        assert forall|i: int, j: int|
            0 <= i < wanted[k]@.len() && 0 <= j < all_paths.len() && j < details.len()
                && all_paths[j].components == wanted[k]@[i].path@.components && (forall|l: int|
                0 <= l < j ==> (#[trigger] all_paths[l]).components
                    != wanted[k]@[i].path@.components) implies (#[trigger] wanted[k]@[i]).detail
            == #[trigger] details[j] by {
            let key = wanted[k]@[i].path@.components;
            let q = |p: PathView| p.components == key;
            assert(seqs::is_first(all_paths, q, j));
            seqs::lemma_first_index_is(all_paths, q, j);
        }
        assert forall|i: int|
            0 <= i < wanted[k]@.len() && (forall|j: int|
                0 <= j < all_paths.len() ==> (#[trigger] all_paths[j]).components
                    != wanted[k]@[i].path@.components) implies (#[trigger] wanted[k]@[i]).detail
            == 0 by {
            let key = wanted[k]@[i].path@.components;
            seqs::lemma_first_index_none(all_paths, |p: PathView| p.components == key);
        }
        w
    } else {
        0
    }
}

/// Without a limit two local workspaces other than the current one have two entries, in their
/// order.
pub proof fn each_local_workspace_has_an_entry(
    workspaces: &Vec<RecentWorkspace>,
    current: Option<WorkspaceId>,
    labels: Seq<Vec<String>>,
    r: Seq<RecentProjectEntry>,
    v: int,
    w: int,
) -> (x: (int, int))
    requires
        recents::recent_entries(workspaces@, current, None, labels, r),
        0 <= v < w < workspaces@.len(),
        workspaces@[v].location is Local,
        workspaces@[w].location is Local,
        current != Some(workspaces@[v].workspace_id),
        current != Some(workspaces@[w].workspace_id),
    ensures
        0 <= x.0 < x.1 < r.len(),
        entry_of(r[x.0], workspaces@[v]),
        entry_of(r[x.1], workspaces@[w]),
{
    let p = recents::listed_at(workspaces@, current);
    let ids = recents::listed_ids(workspaces@, current);
    assert(workspaces@.len() == workspaces.len());
    seqs::lemma_index_filter(workspaces@.len(), p);
    assert(p(v as usize as int) && p(w as usize as int));
    let j = choose|j: int| 0 <= j < ids.len() && ids[j] == v as usize;
    let k = choose|k: int| 0 <= k < ids.len() && ids[k] == w as usize;
    if k < j {
        assert(ids[k] < ids[j]);
    }
    assert(r[j].describes(&workspaces@[v], recents::labels_at(labels, j)));
    assert(r[k].describes(&workspaces@[w], recents::labels_at(labels, k)));
    lemma_entry_of(r[j], workspaces@[v], recents::labels_at(labels, j));
    lemma_entry_of(r[k], workspaces@[w], recents::labels_at(labels, k));
    (j, k)
}

/// The paths to tell apart come in the order of paths.
pub proof fn paths_to_tell_apart_are_in_order(
    workspaces: Seq<RecentWorkspace>,
    current: Option<WorkspaceId>,
    r: Seq<ProjectPath>,
    i: int,
    j: int,
)
    requires
        recents::listed_paths(workspaces, current, r),
        0 <= i < j < r.len(),
    ensures
        path::path_before(r[i]@.components, r[j]@.components),
{
    let views = seqs::views(r);
    assert(views[i] == r[i]@ && views[j] == r[j]@);
}

/// The detail of a path is the one at the first place at which the path was told apart; 0 where it
/// was not, and where there is no detail for that place.
pub proof fn details_are_those_of_the_first_place(
    all_paths: Seq<PathView>,
    details: Seq<usize>,
    key: Seq<ComponentView>,
    j: int,
)
    requires
        all_paths.len() <= usize::MAX,
    ensures
        0 <= j < all_paths.len() && all_paths[j].components == key && (forall|l: int|
            0 <= l < j ==> (#[trigger] all_paths[l]).components != key) ==> recents::detail_of(
            all_paths,
            details,
            key,
        ) == (if j < details.len() {
            details[j]
        } else {
            0
        }),
        (forall|l: int| 0 <= l < all_paths.len() ==> (#[trigger] all_paths[l]).components != key)
            ==> recents::detail_of(all_paths, details, key) == 0,
{
    let q = |p: PathView| p.components == key;
    if 0 <= j < all_paths.len() && all_paths[j].components == key && (forall|l: int|
        0 <= l < j ==> (#[trigger] all_paths[l]).components != key) {
        assert(seqs::is_first(all_paths, q, j));
        seqs::lemma_first_index_is(all_paths, q, j);
    }
    if forall|l: int| 0 <= l < all_paths.len() ==> (#[trigger] all_paths[l]).components != key {
        seqs::lemma_first_index_none(all_paths, q);
    }
}

} // verus!
