//! What holds of queries: when everything is listed, and what projects are found by.
use crate::delegate::RecentProjectsDelegate;
use crate::listing;
use crate::listing::MatchRequest;
use crate::model::EntryView;
use crate::path::{PathListView, PathView};
use crate::seqs;
use crate::text;
use crate::text_laws;
use vstd::prelude::*;

verus! {

/// A query asks for everything exactly where it holds nothing but white space.
pub proof fn blank_queries_ask_for_everything(query: Seq<char>)
    ensures
        listing::empty_query(query) <==> forall|i: int|
            0 <= i < query.len() ==> text::white_space(#[trigger] query[i]),
{
    let n = text_laws::trimming_the_start_drops_white_space(query);
    if n < query.len() {
        assert(!text::white_space(query[n]));
    }
}

/// The texts are, path by path, the name where there is one, and the whole path; `at` says where
/// the whole paths stand.
pub open spec fn names_and_paths(
    parts: Seq<Seq<char>>,
    paths: Seq<PathView>,
    at: Seq<int>,
) -> bool {
    &&& at.len() == paths.len()
    &&& paths.len() == 0 ==> parts.len() == 0
    &&& paths.len() > 0 ==> parts.len() == at.last() + 1
    &&& forall|i: int|
        0 <= i < paths.len() ==> {
            let from: int = if i == 0 {
                0
            } else {
                at[i - 1] + 1
            };
            match (#[trigger] paths[i]).compact_file_name {
                Some(name) => at[i] == from + 1 && parts[from] == name,
                None => at[i] == from,
            }
        }
    &&& forall|i: int|
        0 <= i < paths.len() ==> 0 <= #[trigger] at[i] < parts.len() && parts[at[i]]
            == paths[i].compact
}

proof fn lemma_parts(paths: Seq<PathView>) -> (at: Seq<int>)
    ensures
        names_and_paths(listing::blob_parts(paths), paths, at),
    decreases paths.len(),
{
    let parts = listing::blob_parts(paths);
    if paths.len() == 0 {
        Seq::empty()
    } else {
        let rest = paths.drop_last();
        let few = listing::blob_parts(rest);
        let before = lemma_parts(rest);
        let at = before.push(parts.len() - 1);
        assert forall|i: int| 0 <= i < paths.len() implies ({
            let from: int = if i == 0 {
                0
            } else {
                at[i - 1] + 1
            };
            match (#[trigger] paths[i]).compact_file_name {
                Some(name) => at[i] == from + 1 && parts[from] == name,
                None => at[i] == from,
            }
        }) by {
            if i < rest.len() {
                assert(rest[i] == paths[i]);
                assert(at[i] == before[i]);
                assert(0 <= before[i] < few.len());
                if i > 0 {
                    assert(at[i - 1] == before[i - 1]);
                    assert(0 <= before[i - 1]);
                }
            } else if i > 0 {
                assert(at[i - 1] == before[i - 1]);
                assert(before[i - 1] == few.len() - 1);
            }
        }
        assert forall|i: int| 0 <= i < paths.len() implies 0 <= #[trigger] at[i] < parts.len()
            && parts[at[i]] == paths[i].compact by {
            if i < rest.len() {
                assert(at[i] == before[i]);
                assert(rest[i] == paths[i]);
            }
        }
        at
    }
}

/// A list of paths is found by the names and the whole texts of its paths, in the order in which
/// they are shown, with a space between them and nothing else.
pub proof fn projects_are_found_by_names_and_paths(paths: PathListView) -> (x: (
    Seq<Seq<char>>,
    Seq<int>,
    Seq<int>,
))
    ensures
        names_and_paths(x.0, paths.ordered_paths, x.1),
        text_laws::strung(x.0, " "@, listing::search_blob(paths), x.2),
{
    let parts = listing::blob_parts(paths.ordered_paths);
    let at = lemma_parts(paths.ordered_paths);
    let starts = text_laws::joined_texts_are_strung(parts, " "@);
    (parts, at, starts)
}

impl RecentProjectsDelegate {
    /// Every open folder, group and recent workspace is matched against the query without the
    /// white space that it begins with; so is every folder, by its name, unless nothing is left
    /// of the query.
    pub proof fn every_candidate_is_matched(
        &self,
        query: Seq<char>,
        r: &MatchRequest,
        i: int,
    ) -> (n: int)
        requires
            self.requested(query, r),
        ensures
            0 <= n <= query.len(),
            forall|j: int| 0 <= j < n ==> text::white_space(#[trigger] query[j]),
            n < query.len() ==> !text::white_space(query[n]),
            r.query@ == query.skip(n),
            r.open_folders@.len() == self.open_folders@.len(),
            0 <= i < self.open_folders@.len() ==> r.open_folders@[i]@
                == self.open_folders@[i].name@,
            r.project_groups@.len() == self.window_project_groups@.len(),
            0 <= i < self.window_project_groups@.len() ==> r.project_groups@[i]@
                == listing::search_blob(self.window_project_groups@[i].paths@),
            r.recents@.len() == self.workspaces@.len(),
            0 <= i < self.workspaces@.len() ==> r.recents@[i]@ == listing::search_blob(
                self.workspaces@[i].identity_paths@,
            ),
            n == query.len() ==> r.folder_names@.len() == 0,
            n < query.len() ==> r.folder_names@.len() == self.folders@.len(),
            n < query.len() && 0 <= i < self.folders@.len() ==> r.folder_names@[i]@
                == self.folders@[i].name@,
    {
        let n = text_laws::trimming_the_start_drops_white_space(query);
        n
    }

    /// The selection snaps to the first row that is no title; to the first row where all are.
    pub proof fn the_first_row_below_a_title_is_selected(rows: Seq<EntryView>, i: int)
        requires
            rows.len() <= usize::MAX,
        ensures
            0 <= i < rows.len() && !(rows[i] is Header) && (forall|j: int|
                0 <= j < i ==> #[trigger] rows[j] is Header) ==> Self::snapped(rows) == i,
            (forall|j: int| 0 <= j < rows.len() ==> #[trigger] rows[j] is Header)
                ==> Self::snapped(rows) == 0,
    {
        let p = |e: EntryView| e.selectable();
        if 0 <= i < rows.len() && !(rows[i] is Header) && (forall|j: int|
            0 <= j < i ==> #[trigger] rows[j] is Header) {
            assert(seqs::is_first(rows, p, i));
            seqs::lemma_first_index_is(rows, p, i);
        }
        if forall|j: int| 0 <= j < rows.len() ==> #[trigger] rows[j] is Header {
            seqs::lemma_first_index_none(rows, p);
        }
    }
}

} // verus!
