//! How a listing is laid out: its sections, in order, and its folders, in order.
use crate::delegate::RecentProjectsDelegate;
use crate::listing::MatchResults;
use crate::listing_laws;
use crate::model::{EntryView, MatchView, WorkspaceId};
use crate::seqs;
use vstd::prelude::*;

verus! {

/// The place of the section with this title among the sections.
pub open spec fn title_rank(title: Seq<char>) -> int {
    if title == "Current Folders"@ {
        0
    } else if title == "This Window"@ {
        1
    } else if title == "Ungrouped"@ {
        2
    } else {
        3
    }
}

/// The row is of the kind that the section with this title is made of.
pub open spec fn heads(title: Seq<char>, row: EntryView) -> bool {
    ||| title == "Current Folders"@ && row is OpenFolder
    ||| title == "This Window"@ && row is ProjectGroup
    ||| title == "Ungrouped"@ && row is RecentProject
}

/// Each title is followed by a row of its kind, and later titles have higher ranks; all are at
/// least `low` and below `high`.
pub open spec fn in_sections(rows: Seq<EntryView>, low: int, high: int) -> bool {
    &&& forall|i: int|
        0 <= i < rows.len() ==> (#[trigger] rows[i] matches EntryView::Header(t) ==> {
            &&& low <= title_rank(t) < high
            &&& i + 1 < rows.len()
            &&& heads(t, rows[i + 1])
        })
    &&& forall|i: int, j: int|
        0 <= i < j < rows.len() ==> (#[trigger] rows[i] matches EntryView::Header(t) ==> (
        #[trigger] rows[j] matches EntryView::Header(u) ==> title_rank(t) < title_rank(u)))
}

proof fn lemma_in_sections_concat(
    a: Seq<EntryView>,
    b: Seq<EntryView>,
    low: int,
    mid: int,
    high: int,
)
    requires
        in_sections(a, low, mid),
        in_sections(b, mid, high),
        low <= mid <= high,
    ensures
        in_sections(a + b, low, high),
{
    let rows = a + b;
    assert forall|i: int| 0 <= i < rows.len() implies (#[trigger] rows[i] matches
        EntryView::Header(t) ==> {
        &&& low <= title_rank(t) < high
        &&& i + 1 < rows.len()
        &&& heads(t, rows[i + 1])
    }) by {
        if i < a.len() {
            assert(rows[i] == a[i]);
            if i + 1 < a.len() {
                assert(rows[i + 1] == a[i + 1]);
            }
        } else {
            assert(rows[i] == b[i - a.len()]);
            if i + 1 < rows.len() {
                assert(rows[i + 1] == b[i - a.len() + 1]);
            }
        }
    }
    assert forall|i: int, j: int| 0 <= i < j < rows.len() implies (#[trigger] rows[i] matches
        EntryView::Header(t) ==> (#[trigger] rows[j] matches EntryView::Header(u) ==> title_rank(t)
        < title_rank(u))) by {
        if j < a.len() {
            assert(rows[i] == a[i] && rows[j] == a[j]);
        } else if i >= a.len() {
            assert(rows[i] == b[i - a.len()] && rows[j] == b[j - a.len()]);
        } else {
            assert(rows[i] == a[i] && rows[j] == b[j - a.len()]);
        }
    }
}

proof fn lemma_untitled(rows: Seq<EntryView>, rank: int)
    requires
        forall|i: int| 0 <= i < rows.len() ==> !(#[trigger] rows[i] is Header),
    ensures
        in_sections(rows, rank, rank),
{
}

proof fn lemma_titled(rows: Seq<EntryView>, title: Seq<char>)
    requires
        rows.len() > 1,
        rows[0] == EntryView::Header(title),
        heads(title, rows[1]),
        forall|i: int| 0 < i < rows.len() ==> !(#[trigger] rows[i] is Header),
    ensures
        in_sections(rows, title_rank(title), title_rank(title) + 1),
{
    assert forall|i: int| 0 <= i < rows.len() && #[trigger] rows[i] is Header implies i == 0 by {}
}

proof fn lemma_filter_middle<T>(
    a: Seq<T>,
    b: Seq<T>,
    c: Seq<T>,
    d: Seq<T>,
    e: Seq<T>,
    p: spec_fn(T) -> bool,
)
    requires
        forall|i: int| 0 <= i < a.len() ==> !p(#[trigger] a[i]),
        forall|i: int| 0 <= i < c.len() ==> p(#[trigger] c[i]),
        forall|i: int| 0 <= i < d.len() ==> !p(#[trigger] d[i]),
        forall|i: int| 0 <= i < e.len() ==> !p(#[trigger] e[i]),
    ensures
        (a + b + c + d + e).filter(p) == b.filter(p) + c,
{
    Seq::filter_distributes_over_add(a, b, p);
    Seq::filter_distributes_over_add(a + b, c, p);
    Seq::filter_distributes_over_add(a + b + c, d, p);
    Seq::filter_distributes_over_add(a + b + c + d, e, p);
    seqs::lemma_filter_none(a, p);
    listing_laws::lemma_filter_all(c, p);
    seqs::lemma_filter_none(d, p);
    seqs::lemma_filter_none(e, p);
    assert((a + b + c + d + e).filter(p) =~= b.filter(p) + c);
}

/// The row is a folder's.
pub open spec fn folder_rows() -> spec_fn(EntryView) -> bool {
    |row: EntryView| row is Folder
}

impl RecentProjectsDelegate {
    proof fn lemma_current_folders_in_order(&self, empty: bool, hits: Seq<MatchView>)
        ensures
            in_sections(self.current_folders_section(empty, hits), 0, 1),
    {
        let section = self.current_folders_section(empty, hits);
        if section.len() > 0 {
            lemma_titled(section, "Current Folders"@);
        } else {
            lemma_untitled(section, 0);
        }
    }

    proof fn lemma_this_window_in_order(&self, empty: bool, hits: Seq<MatchView>)
        ensures
            in_sections(self.this_window_section(empty, hits), 1, 2),
    {
        reveal_strlit("Current Folders");
        reveal_strlit("This Window");
        assert("This Window"@.len() != "Current Folders"@.len());
        let section = self.this_window_section(empty, hits);
        if section.len() > 0 {
            self.lemma_this_window_headed(empty, hits);
            assert(!section[0].selectable());
            lemma_titled(section, "This Window"@);
        } else {
            lemma_untitled(section, 1);
        }
    }

    proof fn lemma_ungrouped_in_order(
        &self,
        empty: bool,
        results: &MatchResults,
        current: Option<WorkspaceId>,
    )
        ensures
            in_sections(self.ungrouped_section(empty, results, current), 2, 3),
    {
        reveal_strlit("Current Folders");
        reveal_strlit("This Window");
        reveal_strlit("Ungrouped");
        assert("Ungrouped"@.len() != "Current Folders"@.len());
        assert("Ungrouped"@.len() != "This Window"@.len());
        let section = self.ungrouped_section(empty, results, current);
        if section.len() > 0 {
            lemma_titled(section, "Ungrouped"@);
        } else {
            lemma_untitled(section, 2);
        }
    }

    /// The titles that are listed are those of the open folders, of this window's projects and of
    /// the ungrouped ones, in this order and each at most once; a title is followed by a row of
    /// its kind.
    pub proof fn sections_come_in_order(
        &self,
        empty: bool,
        results: &MatchResults,
        current: Option<WorkspaceId>,
    )
        ensures
            in_sections(self.listed(empty, results, current), 0, 3),
    {
        let a = self.current_folders_section(empty, seqs::views(results.open_folders@));
        let b = self.this_window_section(empty, seqs::views(results.project_groups@));
        let c = self.folder_sections(self.folders@.len(), empty, results);
        let d = self.draft_section();
        let e = self.ungrouped_section(empty, results, current);
        let f = self.new_folder_section(empty);
        self.lemma_current_folders_in_order(empty, seqs::views(results.open_folders@));
        self.lemma_this_window_in_order(empty, seqs::views(results.project_groups@));
        self.lemma_folder_sections_rows(self.folders@.len(), empty, results);
        lemma_untitled(c, 2);
        lemma_untitled(d, 2);
        self.lemma_ungrouped_in_order(empty, results, current);
        lemma_untitled(f, 3);
        lemma_in_sections_concat(a, b, 0, 1, 2);
        lemma_in_sections_concat(a + b, c, 0, 2, 2);
        lemma_in_sections_concat(a + b + c, d, 0, 2, 2);
        lemma_in_sections_concat(a + b + c + d, e, 0, 2, 3);
        lemma_in_sections_concat(a + b + c + d + e, f, 0, 3, 3);
    }

    /// The row of folder `f`, where the folder is listed.
    pub open spec fn listed_folder(&self, empty: bool, results: &MatchResults) -> spec_fn(
        int,
    ) -> Option<EntryView> {
        |f: int|
            if self.folder_section(f, empty, results).len() > 0 {
                Some(
                    EntryView::Folder {
                        folder_id: self.folders@[f].folder_id,
                        name: self.folders@[f].name@,
                    },
                )
            } else {
                None
            }
    }

    proof fn lemma_folder_section_folders(&self, f: int, empty: bool, results: &MatchResults)
        ensures
            self.folder_section(f, empty, results).filter(folder_rows()) == (
            match self.listed_folder(empty, results)(f) {
                Some(row) => seq![row],
                None => Seq::empty(),
            }),
    {
        let p = folder_rows();
        let section = self.folder_section(f, empty, results);
        if section.len() > 0 {
            let row = seq![section[0]];
            let rest = section.skip(1);
            assert(section =~= row + rest);
            assert forall|i: int| 0 <= i < rest.len() implies !p(#[trigger] rest[i]) by {
                assert(rest[i] == section[i + 1]);
            }
            Seq::filter_distributes_over_add(row, rest, p);
            listing_laws::lemma_filter_all(row, p);
            seqs::lemma_filter_none(rest, p);
            assert(section.filter(p) =~= row);
        } else {
            seqs::lemma_filter_none(section, p);
        }
    }

    proof fn lemma_folder_sections_folders(&self, n: nat, empty: bool, results: &MatchResults)
        ensures
            self.folder_sections(n, empty, results).filter(folder_rows())
                == seqs::index_filter_map(n, self.listed_folder(empty, results)),
        decreases n,
    {
        let p = folder_rows();
        if n == 0 {
            seqs::lemma_filter_none(self.folder_sections(0, empty, results), p);
        } else {
            let m = (n - 1) as nat;
            self.lemma_folder_sections_folders(m, empty, results);
            self.lemma_folder_section_folders(m as int, empty, results);
            Seq::filter_distributes_over_add(
                self.folder_sections(m, empty, results),
                self.folder_section(m as int, empty, results),
                p,
            );
            assert(self.folder_sections(n, empty, results).filter(p) =~= seqs::index_filter_map(
                n,
                self.listed_folder(empty, results),
            ));
        }
    }

    /// The rows of folders are those of the stored folders that are listed, in the order in which
    /// they are stored, and then the draft's.
    pub proof fn folders_keep_their_order(
        &self,
        empty: bool,
        results: &MatchResults,
        current: Option<WorkspaceId>,
    )
        ensures
            self.listed(empty, results, current).filter(folder_rows()) == seqs::index_filter_map(
                self.folders@.len(),
                self.listed_folder(empty, results),
            ) + self.draft_section(),
    {
        let p = folder_rows();
        let front = self.current_folders_section(empty, seqs::views(results.open_folders@))
            + self.this_window_section(empty, seqs::views(results.project_groups@));
        let c = self.folder_sections(self.folders@.len(), empty, results);
        let d = self.draft_section();
        let e = self.ungrouped_section(empty, results, current);
        let f = self.new_folder_section(empty);
        self.lemma_folder_sections_folders(self.folders@.len(), empty, results);
        assert forall|i: int| 0 <= i < front.len() implies !p(#[trigger] front[i]) by {}
        assert forall|i: int| 0 <= i < d.len() implies p(#[trigger] d[i]) by {}
        assert forall|i: int| 0 <= i < e.len() implies !p(#[trigger] e[i]) by {}
        assert forall|i: int| 0 <= i < f.len() implies !p(#[trigger] f[i]) by {}
        lemma_filter_middle(front, c, d, e, f, p);
    }
}

} // verus!
