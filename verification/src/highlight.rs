//! Which bytes of a path are highlighted, and how the highlighted names are put together.
use crate::path::{PathView, ProjectPath};
use crate::seqs;
use crate::text;
use vstd::prelude::*;

verus! {

/// A text, and the byte positions in it that are highlighted.
#[derive(Debug, PartialEq, Eq)]
pub struct HighlightedText {
    pub text: String,
    pub highlight_positions: Vec<usize>,
}

pub struct HighlightedView {
    pub text: Seq<char>,
    pub highlight_positions: Seq<usize>,
}

impl View for HighlightedText {
    type V = HighlightedView;

    open spec fn view(&self) -> HighlightedView {
        HighlightedView { text: self.text@, highlight_positions: self.highlight_positions@ }
    }
}

/// How many positions at the beginning lie before `start`.
pub open spec fn skipped(positions: Seq<usize>, start: int) -> int
    decreases positions.len(),
{
    if positions.len() > 0 && positions[0] < start {
        1 + skipped(positions.drop_first(), start)
    } else {
        0
    }
}

/// The positions up to the first one at or behind `end`, counted from `start`.
pub open spec fn taken(positions: Seq<usize>, start: int, end: int) -> Seq<usize>
    decreases positions.len(),
{
    if positions.len() > 0 && positions[0] < end {
        seq![(positions[0] - start) as usize] + taken(positions.drop_first(), start, end)
    } else {
        Seq::empty()
    }
}

/// The run of positions that falls in the `len` bytes at `start`, counted from `start`: what lies
/// before it is skipped, and it ends with the first position behind it.
pub open spec fn window(positions: Seq<usize>, start: int, len: int) -> Seq<usize> {
    taken(positions.skip(skipped(positions, start)), start, start + len)
}

/// No position of the run lies before its beginning, so that each can be counted from there.
pub open spec fn run_fits(positions: Seq<usize>, start: int, end: int) -> bool
    decreases positions.len(),
{
    positions.len() > 0 && positions[0] < end ==> positions[0] >= start && run_fits(
        positions.drop_first(),
        start,
        end,
    )
}

/// The window can be computed: its end is a position, and no position in it lies before it.
pub open spec fn window_fits(positions: Seq<usize>, start: int, len: int) -> bool {
    &&& start + len <= usize::MAX
    &&& run_fits(positions.skip(skipped(positions, start)), start, start + len)
}

/// Positions come in increasing order.
pub open spec fn ascending(positions: Seq<usize>) -> bool {
    forall|i: int, j: int| 0 <= i < j < positions.len() ==> positions[i] < positions[j]
}

proof fn lemma_skipped(positions: Seq<usize>, start: int)
    ensures
        0 <= skipped(positions, start) <= positions.len(),
        forall|i: int| 0 <= i < skipped(positions, start) ==> (#[trigger] positions[i]) < start,
        skipped(positions, start) < positions.len() ==> positions[skipped(positions, start)]
            >= start,
    decreases positions.len(),
{
    if positions.len() > 0 && positions[0] < start {
        let rest = positions.drop_first();
        lemma_skipped(rest, start);
        assert forall|i: int| 0 <= i < skipped(positions, start) implies (#[trigger] positions[i])
            < start by {
            if i > 0 {
                assert(positions[i] == rest[i - 1]);
            }
        }
    }
}

proof fn lemma_skipped_is(positions: Seq<usize>, start: int, n: int)
    requires
        0 <= n <= positions.len(),
        forall|i: int| 0 <= i < n ==> (#[trigger] positions[i]) < start,
        n < positions.len() ==> positions[n] >= start,
    ensures
        skipped(positions, start) == n,
{
    lemma_skipped(positions, start);
    let k = skipped(positions, start);
    if n < k {
        assert(positions[n] < start);
    }
    if k < n {
        assert(positions[k] < start);
    }
}

proof fn lemma_run_fits(positions: Seq<usize>, start: int, end: int)
    requires
        ascending(positions),
        positions.len() > 0 ==> positions[0] >= start,
    ensures
        run_fits(positions, start, end),
    decreases positions.len(),
{
    if positions.len() > 0 {
        lemma_run_fits(positions.drop_first(), start, end);
    }
}

proof fn lemma_taken(positions: Seq<usize>, start: int, end: int, i: int)
    requires
        ascending(positions),
        positions.len() > 0 ==> positions[0] >= start,
        0 <= start,
    ensures
        taken(positions, start, end).len() <= positions.len(),
        0 <= i < positions.len() && positions[i] < end ==> i < taken(positions, start, end).len(),
        0 <= i < taken(positions, start, end).len() ==> positions[i] < end && taken(
            positions,
            start,
            end,
        )[i] == positions[i] - start,
    decreases positions.len(),
{
    if positions.len() > 0 && positions[0] < end {
        let rest = positions.drop_first();
        lemma_taken(rest, start, end, i - 1);
        if 0 < i < positions.len() {
            assert(rest[i - 1] == positions[i]);
        }
    } else if 0 < i < positions.len() {
        assert(positions[0] < positions[i]);
    }
}

/// Positions in increasing order, as the matcher gives them, can be cut wherever the window ends
/// at a position; the window then holds exactly the positions that fall in it, again in
/// increasing order.
pub proof fn ascending_positions_fit(positions: Seq<usize>, start: int, len: int)
    requires
        ascending(positions),
        0 <= start,
        0 <= len,
        start + len <= usize::MAX,
    ensures
        window_fits(positions, start, len),
        ascending(window(positions, start, len)),
        forall|p: usize| #[trigger]
            window(positions, start, len).contains(p) <==> p < len && positions.contains(
                (p + start) as usize,
            ),
{
    lemma_skipped(positions, start);
    let n = skipped(positions, start);
    let rest = positions.skip(n);
    let w = window(positions, start, len);
    assert(ascending(rest)) by {
        assert forall|i: int, j: int| 0 <= i < j < rest.len() implies rest[i] < rest[j] by {
            assert(rest[i] == positions[i + n] && rest[j] == positions[j + n]);
        }
    }
    lemma_run_fits(rest, start, start + len);
    lemma_taken(rest, start, start + len, 0);
    assert forall|i: int, j: int| 0 <= i < j < w.len() implies w[i] < w[j] by {
        lemma_taken(rest, start, start + len, i);
        lemma_taken(rest, start, start + len, j);
        assert(rest[i] < rest[j]);
        lemma_ascending_from(rest, start, i);
        lemma_ascending_from(rest, start, j);
    }
    assert forall|p: usize| #[trigger] w.contains(p) <==> p < len && positions.contains(
        (p + start) as usize,
    ) by {
        if w.contains(p) {
            let i = choose|i: int| 0 <= i < w.len() && w[i] == p;
            lemma_taken(rest, start, start + len, i);
            lemma_ascending_from(rest, start, i);
            assert(positions[i + n] == rest[i]);
            assert(p + start == rest[i]);
        }
        if p < len && positions.contains((p + start) as usize) {
            let k = choose|k: int| 0 <= k < positions.len() && positions[k] == (p + start) as usize;
            if k < n {
                assert(positions[k] < start);
            }
            assert(rest[k - n] == positions[k]);
            lemma_taken(rest, start, start + len, k - n);
            assert(w[k - n] == p);
        }
    }
}

proof fn lemma_ascending_from(positions: Seq<usize>, start: int, i: int)
    requires
        ascending(positions),
        0 <= i < positions.len(),
        positions[0] >= start,
    ensures
        positions[i] >= start,
{
    if i > 0 {
        assert(positions[0] < positions[i]);
    }
}

/// The positions of `positions` that fall in the `len` bytes at `start`, counted from `start`,
/// where they can be computed.
fn positions_in(positions: &Vec<usize>, start: usize, len: usize) -> (r: Option<Vec<usize>>)
    ensures
        r is Some == window_fits(positions@, start as int, len as int),
        r matches Some(w) ==> w@ == window(positions@, start as int, len as int),
{
    if len > usize::MAX - start {
        return None;
    }
    let mut i: usize = 0;
    while i < positions.len() && positions[i] < start
        invariant
            i <= positions@.len(),
            forall|j: int| 0 <= j < i ==> (#[trigger] positions@[j]) < start,
        decreases positions@.len() - i,
    {
        i = i + 1;
    }
    proof {
        lemma_skipped_is(positions@, start as int, i as int);
    }
    let end: usize = start + len;
    let mut r: Vec<usize> = Vec::new();
    let ghost whole = window(positions@, start as int, len as int);
    let ghost fits = window_fits(positions@, start as int, len as int);
    assert(r@ + taken(positions@.skip(i as int), start as int, end as int) =~= whole);
    while i < positions.len() && positions[i] < end
        invariant
            i <= positions@.len(),
            end == start + len,
            fits == window_fits(positions@, start as int, len as int),
            fits == run_fits(positions@.skip(i as int), start as int, end as int),
            r@ + taken(positions@.skip(i as int), start as int, end as int) == whole,
        decreases positions@.len() - i,
    {
        let ghost rest = positions@.skip(i as int);
        assert(rest[0] == positions@[i as int]);
        assert(rest.drop_first() =~= positions@.skip(i + 1));
        if positions[i] < start {
            return None;
        }
        let ghost before = r@;
        r.push(positions[i] - start);
        i = i + 1;
        assert(r@ + taken(rest.drop_first(), start as int, end as int) =~= before + taken(
            rest,
            start as int,
            end as int,
        ));
    }
    proof {
        let rest = positions@.skip(i as int);
        if i < positions@.len() {
            assert(rest[0] == positions@[i as int]);
        }
        assert(r@ + Seq::<usize>::empty() =~= r@);
    }
    Some(r)
}

/// The highlighted path: the positions that fall in its text, which begins at `offset`.
pub open spec fn path_highlight(
    path: PathView,
    positions: Seq<usize>,
    offset: int,
) -> HighlightedView {
    HighlightedView {
        text: path.compact,
        highlight_positions: window(positions, offset, text::byte_len(path.compact) as int),
    }
}

/// Where the name begins in the text of the path: behind it come separators at most, so it is
/// where the name occurs last.
pub open spec fn name_start(path: PathView, name: Seq<char>) -> Option<int> {
    text::last_occurrence(path.compact, name)
}

/// A name behind which nothing but separators come begins where it stands, whatever else the
/// path holds.
pub proof fn names_stand_before_trailing_separators(
    path: PathView,
    name: Seq<char>,
    start: int,
    separator: u8,
)
    requires
        text::byte_len(name) > 0,
        text::bytes(name).last() != separator,
        text::occurs_at(text::bytes(path.compact), text::bytes(name), start),
        forall|i: int|
            start + text::byte_len(name) <= i < text::byte_len(path.compact)
                ==> #[trigger] text::bytes(path.compact)[i] == separator,
    ensures
        name_start(path, name) == Some(start),
{
    let whole = text::bytes(path.compact);
    let part = text::bytes(name);
    assert forall|j: int| j > start implies !#[trigger] text::occurs_at(whole, part, j) by {
        if text::occurs_at(whole, part, j) {
            let found = whole.subrange(j, j + part.len());
            assert(found[part.len() - 1] == whole[j + part.len() - 1]);
        }
    }
    text::lemma_last_occurrence_is(path.compact, name, start);
}

/// The highlighted name at the end of a path, where the path ends in a name.
pub open spec fn name_highlight(path: PathView, positions: Seq<usize>, offset: int) -> Option<
    HighlightedView,
> {
    match path.compact_file_name {
        Some(name) => Some(
            HighlightedView {
                text: name,
                highlight_positions: window(
                    path_highlight(path, positions, offset).highlight_positions,
                    name_start(path, name)->0,
                    text::byte_len(name) as int,
                ),
            },
        ),
        None => None,
    }
}

/// The highlights of a path can be computed: the cuts fit, and the name stands in the path.
pub open spec fn path_fits(path: PathView, positions: Seq<usize>, offset: int) -> bool {
    &&& window_fits(positions, offset, text::byte_len(path.compact) as int)
    &&& path.compact_file_name matches Some(name) ==> (name_start(path, name) matches Some(start)
        && window_fits(
        path_highlight(path, positions, offset).highlight_positions,
        start,
        text::byte_len(name) as int,
    ))
}

/// With the positions in increasing order, the highlights of a path can be computed wherever its
/// text ends at a position.
pub proof fn ascending_positions_fit_paths(path: PathView, positions: Seq<usize>, offset: int)
    requires
        ascending(positions),
        0 <= offset,
        offset + text::byte_len(path.compact) <= usize::MAX,
        path.named(),
    ensures
        path_fits(path, positions, offset),
{
    let len = text::byte_len(path.compact) as int;
    ascending_positions_fit(positions, offset, len);
    if let Some(name) = path.compact_file_name {
        text::lemma_last_occurrence(path.compact, name);
        ascending_positions_fit(
            window(positions, offset, len),
            name_start(path, name)->0,
            text::byte_len(name) as int,
        );
    }
}

pub open spec fn highlighted_option(r: Option<HighlightedText>) -> Option<HighlightedView> {
    match r {
        Some(h) => Some(h@),
        None => None,
    }
}

/// The highlights of a path, where they can be computed.
fn try_highlights_for_path(
    path: &ProjectPath,
    match_positions: &Vec<usize>,
    path_start_offset: usize,
) -> (r: Option<(Option<HighlightedText>, HighlightedText)>)
    ensures
        r is Some == path_fits(path@, match_positions@, path_start_offset as int),
        r matches Some(h) ==> highlighted_option(h.0) == name_highlight(
            path@,
            match_positions@,
            path_start_offset as int,
        ),
        r matches Some(h) ==> h.1@ == path_highlight(
            path@,
            match_positions@,
            path_start_offset as int,
        ),
{
    let path_byte_len: usize = text::len_in_bytes(path.compact.as_str());
    let path_positions: Vec<usize> = match positions_in(
        match_positions,
        path_start_offset,
        path_byte_len,
    ) {
        Some(positions) => positions,
        None => {
            return None;
        },
    };
    let name: Option<HighlightedText> = match &path.compact_file_name {
        Some(name) => {
            let start: usize = match text::find_last(path.compact.as_str(), name.as_str()) {
                Some(start) => start,
                None => {
                    return None;
                },
            };
            match positions_in(&path_positions, start, text::len_in_bytes(name.as_str())) {
                Some(positions) => Some(
                    HighlightedText { text: name.clone(), highlight_positions: positions },
                ),
                None => {
                    return None;
                },
            }
        },
        None => None,
    };
    Some(
        (
            name,
            HighlightedText { text: path.compact.clone(), highlight_positions: path_positions },
        ),
    )
}

/// The highlighted name and the highlighted text of a path whose text begins at byte
/// `path_start_offset` of what was matched.
pub fn highlights_for_path(
    path: &ProjectPath,
    match_positions: &Vec<usize>,
    path_start_offset: usize,
) -> (r: (Option<HighlightedText>, HighlightedText))
    requires
        path_fits(path@, match_positions@, path_start_offset as int),
    ensures
        highlighted_option(r.0) == name_highlight(
            path@,
            match_positions@,
            path_start_offset as int,
        ),
        r.1@ == path_highlight(path@, match_positions@, path_start_offset as int),
{
    try_highlights_for_path(path, match_positions, path_start_offset).unwrap()
}

/// How many bytes the texts of the paths take up.
pub open spec fn total_len(paths: Seq<PathView>) -> int
    decreases paths.len(),
{
    if paths.len() == 0 {
        0
    } else {
        total_len(paths.drop_last()) + text::byte_len(paths.last().compact)
    }
}

/// The highlighted texts of the paths, one behind another.
pub open spec fn path_highlights(paths: Seq<PathView>, positions: Seq<usize>) -> Seq<
    HighlightedView,
> {
    Seq::new(paths.len(), |i: int| path_highlight(paths[i], positions, total_len(paths.take(i))))
}

/// The highlighted names of the paths that end in one.
pub open spec fn name_highlights(paths: Seq<PathView>, positions: Seq<usize>) -> Seq<
    HighlightedView,
>
    decreases paths.len(),
{
    if paths.len() == 0 {
        Seq::empty()
    } else {
        let rest = paths.drop_last();
        match name_highlight(paths.last(), positions, total_len(rest)) {
            Some(h) => name_highlights(rest, positions).push(h),
            None => name_highlights(rest, positions),
        }
    }
}

/// The highlights of every path can be computed.
pub open spec fn paths_fit(paths: Seq<PathView>, positions: Seq<usize>) -> bool {
    forall|i: int|
        0 <= i < paths.len() ==> #[trigger] path_fits(
            paths[i],
            positions,
            total_len(paths.take(i)),
        )
}

proof fn lemma_total_len(paths: Seq<PathView>)
    ensures
        total_len(paths) >= 0,
    decreases paths.len(),
{
    if paths.len() > 0 {
        lemma_total_len(paths.drop_last());
    }
}

proof fn lemma_total_len_grows(paths: Seq<PathView>, i: int)
    requires
        0 <= i <= paths.len(),
    ensures
        total_len(paths.take(i)) <= total_len(paths),
    decreases paths.len(),
{
    if i < paths.len() {
        lemma_total_len_grows(paths.drop_last(), i);
        assert(paths.drop_last().take(i) =~= paths.take(i));
    } else {
        assert(paths.take(i) =~= paths);
    }
}

/// With the positions in increasing order, the highlights of a list of paths can be computed
/// wherever its whole text ends at a position.
pub proof fn ascending_positions_fit_lists(paths: Seq<PathView>, positions: Seq<usize>)
    requires
        ascending(positions),
        total_len(paths) <= usize::MAX,
        forall|i: int| 0 <= i < paths.len() ==> (#[trigger] paths[i]).named(),
    ensures
        paths_fit(paths, positions),
{
    assert forall|i: int| 0 <= i < paths.len() implies #[trigger] path_fits(
        paths[i],
        positions,
        total_len(paths.take(i)),
    ) by {
        lemma_total_len(paths.take(i));
        lemma_total_len_grows(paths, i + 1);
        assert(paths.take(i + 1).drop_last() =~= paths.take(i));
        assert(paths.take(i + 1).last() == paths[i]);
        ascending_positions_fit_paths(paths[i], positions, total_len(paths.take(i)));
    }
}

/// The names and the texts of the paths, highlighted, where they can be computed.
pub fn highlights_for_paths(paths: &Vec<ProjectPath>, positions: &Vec<usize>) -> (r: Option<
    (Vec<HighlightedText>, Vec<HighlightedText>),
>)
    ensures
        r is Some == paths_fit(seqs::views(paths@), positions@),
        r matches Some(h) ==> seqs::views(h.0@) == name_highlights(
            seqs::views(paths@),
            positions@,
        ),
        r matches Some(h) ==> seqs::views(h.1@) == path_highlights(
            seqs::views(paths@),
            positions@,
        ),
{
    let ghost all = seqs::views(paths@);
    let ghost ps = positions@;
    let mut names: Vec<HighlightedText> = Vec::new();
    let mut texts: Vec<HighlightedText> = Vec::new();
    let mut offset: usize = 0;
    let mut i: usize = 0;
    assert(all.take(0) =~= Seq::empty());
    assert(seqs::views(names@) =~= name_highlights(all.take(0), ps));
    assert(seqs::views(texts@) =~= path_highlights(all.take(0), ps));
    while i < paths.len()
        invariant
            i <= paths@.len(),
            all == seqs::views(paths@),
            ps == positions@,
            offset == total_len(all.take(i as int)),
            forall|j: int|
                0 <= j < i ==> #[trigger] path_fits(all[j], ps, total_len(all.take(j))),
            seqs::views(names@) == name_highlights(all.take(i as int), ps),
            seqs::views(texts@) == path_highlights(all.take(i as int), ps),
        decreases paths@.len() - i,
    {
        let ghost now = all.take(i as int);
        let ghost next = all.take(i + 1);
        assert(all[i as int] == paths@[i as int]@);
        assert(next.drop_last() =~= now);
        assert(next.last() == all[i as int]);
        match try_highlights_for_path(&paths[i], positions, offset) {
            None => {
                assert(!path_fits(all[i as int], ps, total_len(all.take(i as int))));
                return None;
            },
            Some((name, path_text)) => {
                proof {
                    assert forall|j: int| 0 <= j < i implies now.take(j) =~= next.take(j) by {}
                    assert(next.take(i as int) =~= now);
                    seqs::lemma_views_push(texts@, path_text);
                    assert(path_highlights(next, ps) =~= path_highlights(now, ps).push(
                        path_text@,
                    ));
                }
                offset = offset + text::len_in_bytes(paths[i].compact.as_str());
                texts.push(path_text);
                if let Some(h) = name {
                    proof {
                        seqs::lemma_views_push(names@, h);
                    }
                    names.push(h);
                }
            },
        }
        i = i + 1;
    }
    assert(all.take(i as int) =~= all);
    Some((names, texts))
}

} // verus!
