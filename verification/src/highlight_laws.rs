//! What holds of highlights: which positions they keep, and where paths and names begin.
use crate::highlight;
use crate::highlight::HighlightedView;
use crate::path::PathView;
use crate::text;
use vstd::prelude::*;

verus! {

proof fn lemma_taken_run(positions: Seq<usize>, start: int, end: int) -> (m: int)
    ensures
        0 <= m <= positions.len(),
        highlight::taken(positions, start, end).len() == m,
        forall|i: int| 0 <= i < m ==> (#[trigger] positions[i]) < end,
        m < positions.len() ==> positions[m] >= end,
        forall|i: int|
            0 <= i < m ==> #[trigger] highlight::taken(positions, start, end)[i] == (positions[i]
                - start) as usize,
        highlight::run_fits(positions, start, end) <==> forall|i: int|
            0 <= i < m ==> (#[trigger] positions[i]) >= start,
    decreases positions.len(),
{
    if positions.len() > 0 && positions[0] < end {
        let rest = positions.drop_first();
        let k = lemma_taken_run(rest, start, end);
        let m = k + 1;
        let all = highlight::taken(positions, start, end);
        let few = highlight::taken(rest, start, end);
        assert(all == seq![(positions[0] - start) as usize] + few);
        assert forall|i: int| 0 <= i < m implies (#[trigger] positions[i]) < end by {
            if i > 0 {
                assert(positions[i] == rest[i - 1]);
            }
        }
        if m < positions.len() {
            assert(positions[m] == rest[k]);
        }
        assert forall|i: int| 0 <= i < m implies #[trigger] all[i] == (positions[i]
            - start) as usize by {
            if i > 0 {
                assert(all[i] == few[i - 1]);
                assert(positions[i] == rest[i - 1]);
            }
        }
        if highlight::run_fits(positions, start, end) {
            assert forall|i: int| 0 <= i < m implies (#[trigger] positions[i]) >= start by {
                if i > 0 {
                    assert(positions[i] == rest[i - 1]);
                }
            }
        }
        if forall|i: int| 0 <= i < m ==> (#[trigger] positions[i]) >= start {
            assert forall|i: int| 0 <= i < k implies (#[trigger] rest[i]) >= start by {
                assert(rest[i] == positions[i + 1]);
            }
        }
        m
    } else {
        0
    }
}

proof fn lemma_skipped_run(positions: Seq<usize>, start: int)
    ensures
        0 <= highlight::skipped(positions, start) <= positions.len(),
        forall|i: int|
            0 <= i < highlight::skipped(positions, start) ==> (#[trigger] positions[i]) < start,
        highlight::skipped(positions, start) < positions.len()
            ==> positions[highlight::skipped(positions, start)] >= start,
    decreases positions.len(),
{
    if positions.len() > 0 && positions[0] < start {
        let rest = positions.drop_first();
        lemma_skipped_run(rest, start);
        assert forall|i: int| 0 <= i < highlight::skipped(positions, start) implies (
        #[trigger] positions[i]) < start by {
            if i > 0 {
                assert(positions[i] == rest[i - 1]);
            }
        }
    }
}

/// A window keeps one run of the positions, counted from where it begins: all those before the
/// run lie before the window, and the run ends with the first position behind it. It can be
/// computed exactly where its end is a position and no position of the run lies before it.
pub proof fn windows_keep_a_run(positions: Seq<usize>, start: int, len: int) -> (x: (int, int))
    ensures
        0 <= x.0 <= x.1 <= positions.len(),
        forall|i: int| 0 <= i < x.0 ==> (#[trigger] positions[i]) < start,
        x.0 < positions.len() ==> positions[x.0] >= start,
        forall|i: int| x.0 <= i < x.1 ==> (#[trigger] positions[i]) < start + len,
        x.1 < positions.len() ==> positions[x.1] >= start + len,
        highlight::window_fits(positions, start, len) <==> start + len <= usize::MAX && forall|
            i: int,
        |
            x.0 <= i < x.1 ==> (#[trigger] positions[i]) >= start,
        highlight::window(positions, start, len).len() == x.1 - x.0,
        forall|i: int|
            0 <= i < x.1 - x.0 && 0 <= start && highlight::window_fits(positions, start, len)
                ==> #[trigger] highlight::window(positions, start, len)[i] == positions[x.0 + i]
                - start,
{
    lemma_skipped_run(positions, start);
    let n = highlight::skipped(positions, start);
    let rest = positions.skip(n);
    let m = lemma_taken_run(rest, start, start + len);
    assert forall|i: int| n <= i < n + m implies (#[trigger] positions[i]) < start + len by {
        assert(positions[i] == rest[i - n]);
    }
    if n + m < positions.len() {
        assert(positions[n + m] == rest[m]);
    }
    if highlight::run_fits(rest, start, start + len) {
        assert forall|i: int| n <= i < n + m implies (#[trigger] positions[i]) >= start by {
            assert(positions[i] == rest[i - n]);
        }
    }
    if forall|i: int| n <= i < n + m ==> (#[trigger] positions[i]) >= start {
        assert forall|i: int| 0 <= i < m implies (#[trigger] rest[i]) >= start by {
            assert(rest[i] == positions[n + i]);
        }
    }
    if 0 <= start && highlight::window_fits(positions, start, len) {
        let w = highlight::window(positions, start, len);
        assert forall|i: int| 0 <= i < m implies #[trigger] w[i] == positions[n + i] - start by {
            assert(rest[i] == positions[n + i]);
            assert(positions[n + i] >= start);
        }
    }
    (n, n + m)
}

/// The paths of a list are highlighted one by one, in order, each over its own text; the first
/// begins at the beginning, and each other one where the one before it ends.
pub proof fn paths_are_highlighted_one_behind_another(
    paths: Seq<PathView>,
    positions: Seq<usize>,
) -> (offsets: Seq<int>)
    ensures
        offsets.len() == paths.len(),
        highlight::path_highlights(paths, positions).len() == paths.len(),
        paths.len() > 0 ==> offsets[0] == 0,
        forall|i: int|
            0 < i < paths.len() ==> #[trigger] offsets[i] == offsets[i - 1] + text::byte_len(
                paths[i - 1].compact,
            ),
        forall|i: int|
            0 <= i < paths.len() ==> {
                let h = #[trigger] highlight::path_highlights(paths, positions)[i];
                &&& h.text == paths[i].compact
                &&& h.highlight_positions == highlight::window(
                    positions,
                    offsets[i],
                    text::byte_len(paths[i].compact) as int,
                )
            },
{
    let offsets = Seq::new(paths.len(), |i: int| highlight::total_len(paths.take(i)));
    assert(paths.take(0) =~= Seq::empty());
    assert forall|i: int| 0 < i < paths.len() implies #[trigger] offsets[i] == offsets[i - 1]
        + text::byte_len(paths[i - 1].compact) by {
        assert(paths.take(i).drop_last() =~= paths.take(i - 1));
        assert(paths.take(i).last() == paths[i - 1]);
    }
    offsets
}

/// A name is highlighted by those positions of its path that fall in it; it begins where its
/// bytes stand in the path for the last time.
pub proof fn names_are_highlighted_where_they_stand_last(
    path: PathView,
    positions: Seq<usize>,
    offset: int,
    start: int,
)
    requires
        path.compact_file_name is Some,
        0 <= start <= text::byte_len(path.compact) - text::byte_len(path.compact_file_name->0),
        text::bytes(path.compact).subrange(
            start,
            start + text::byte_len(path.compact_file_name->0),
        ) == text::bytes(path.compact_file_name->0),
        forall|j: int|
            start < j <= text::byte_len(path.compact) - text::byte_len(path.compact_file_name->0)
                ==> #[trigger] text::bytes(path.compact).subrange(
                j,
                j + text::byte_len(path.compact_file_name->0),
            ) != text::bytes(path.compact_file_name->0),
    ensures
        highlight::name_highlight(path, positions, offset) is Some,
        ({
            let h = highlight::name_highlight(path, positions, offset)->0;
            &&& h.text == path.compact_file_name->0
            &&& h.highlight_positions == highlight::window(
                highlight::path_highlight(path, positions, offset).highlight_positions,
                start,
                text::byte_len(path.compact_file_name->0) as int,
            )
        }),
{
    let name = path.compact_file_name->0;
    let whole = text::bytes(path.compact);
    let part = text::bytes(name);
    assert(text::occurs_at(whole, part, start));
    assert forall|j: int| j > start implies !#[trigger] text::occurs_at(whole, part, j) by {
        if text::occurs_at(whole, part, j) {
            assert(whole.subrange(j, j + part.len()) == part);
        }
    }
    text::lemma_last_occurrence_is(path.compact, name, start);
}

/// The highlighted name is the path's, with those positions of the path that fall in it.
pub open spec fn is_name_of(
    h: HighlightedView,
    paths: Seq<PathView>,
    positions: Seq<usize>,
    i: int,
) -> bool {
    &&& 0 <= i < paths.len()
    &&& paths[i].compact_file_name is Some
    &&& h.text == paths[i].compact_file_name->0
    &&& h.highlight_positions == highlight::window(
        highlight::path_highlights(paths, positions)[i].highlight_positions,
        highlight::name_start(paths[i], h.text)->0,
        text::byte_len(h.text) as int,
    )
}

proof fn lemma_longer_list(
    h: HighlightedView,
    rest: Seq<PathView>,
    paths: Seq<PathView>,
    positions: Seq<usize>,
    i: int,
)
    requires
        paths.len() > 0,
        rest == paths.drop_last(),
        is_name_of(h, rest, positions, i),
    ensures
        is_name_of(h, paths, positions, i),
{
    assert(rest.take(i) =~= paths.take(i));
    assert(rest[i] == paths[i]);
}

/// Every path with a name has a highlighted name, in the order of the paths; the others have
/// none.
pub proof fn each_named_path_has_a_highlighted_name(
    paths: Seq<PathView>,
    positions: Seq<usize>,
) -> (at: Seq<int>)
    ensures
        at.len() == highlight::name_highlights(paths, positions).len(),
        forall|k: int|
            0 <= k < at.len() ==> is_name_of(
                highlight::name_highlights(paths, positions)[k],
                paths,
                positions,
                #[trigger] at[k],
            ),
        forall|k: int, l: int|
            0 <= k < l < at.len() ==> #[trigger] at[k] < #[trigger] at[l],
        forall|i: int|
            0 <= i < paths.len() && (#[trigger] paths[i]).compact_file_name is Some
                ==> at.contains(i),
    decreases paths.len(),
{
    if paths.len() == 0 {
        Seq::empty()
    } else {
        let rest = paths.drop_last();
        let before = each_named_path_has_a_highlighted_name(rest, positions);
        let n = rest.len() as int;
        let all = highlight::name_highlights(paths, positions);
        let few = highlight::name_highlights(rest, positions);
        if paths.last().compact_file_name is Some {
            let at = before.push(n);
            assert forall|k: int| 0 <= k < at.len() implies is_name_of(
                all[k],
                paths,
                positions,
                #[trigger] at[k],
            ) by {
                if k < before.len() {
                    assert(at[k] == before[k]);
                    assert(all[k] == few[k]);
                    lemma_longer_list(few[k], rest, paths, positions, before[k]);
                } else {
                    assert(paths.take(n) =~= rest);
                }
            }
            assert forall|k: int, l: int| 0 <= k < l < at.len() implies #[trigger] at[k]
                < #[trigger] at[l] by {
                assert(at[k] == before[k]);
                if l < before.len() {
                    assert(at[l] == before[l]);
                }
            }
            assert forall|i: int|
                0 <= i < paths.len() && (#[trigger] paths[i]).compact_file_name
                    is Some implies at.contains(i) by {
                if i < n {
                    assert(rest[i] == paths[i]);
                    let k = choose|k: int| 0 <= k < before.len() && before[k] == i;
                    assert(at[k] == i);
                } else {
                    assert(at[at.len() - 1] == i);
                }
            }
            at
        } else {
            assert forall|k: int| 0 <= k < before.len() implies is_name_of(
                all[k],
                paths,
                positions,
                #[trigger] before[k],
            ) by {
                lemma_longer_list(few[k], rest, paths, positions, before[k]);
            }
            assert forall|i: int|
                0 <= i < paths.len() && (#[trigger] paths[i]).compact_file_name
                    is Some implies before.contains(i) by {
                assert(rest[i] == paths[i]);
            }
            before
        }
    }
}

/// The highlights of a path can be computed exactly where its text can be cut out of the
/// positions, and where its name, if it has one, stands in it and can be cut out of what is left.
/// Those of a list can be computed exactly where those of each of its paths can.
pub proof fn highlights_are_computed_path_by_path(
    paths: Seq<PathView>,
    positions: Seq<usize>,
    offsets: Seq<int>,
)
    requires
        offsets.len() == paths.len(),
        paths.len() > 0 ==> offsets[0] == 0,
        forall|i: int|
            0 < i < paths.len() ==> #[trigger] offsets[i] == offsets[i - 1] + text::byte_len(
                paths[i - 1].compact,
            ),
    ensures
        highlight::paths_fit(paths, positions) <==> forall|i: int|
            0 <= i < paths.len() ==> can_be_cut(#[trigger] paths[i], positions, offsets[i]),
{
    assert forall|i: int| 0 <= i < paths.len() implies #[trigger] highlight::total_len(
        paths.take(i),
    ) == offsets[i] by {
        lemma_offsets(paths, offsets, i);
    }
    assert forall|i: int| 0 <= i < paths.len() implies #[trigger] highlight::path_fits(
        paths[i],
        positions,
        highlight::total_len(paths.take(i)),
    ) == can_be_cut(paths[i], positions, offsets[i]) by {
        assert(highlight::total_len(paths.take(i)) == offsets[i]);
    }
    if highlight::paths_fit(paths, positions) {
        assert forall|i: int| 0 <= i < paths.len() implies can_be_cut(
            #[trigger] paths[i],
            positions,
            offsets[i],
        ) by {
            assert(highlight::path_fits(
                paths[i],
                positions,
                highlight::total_len(paths.take(i)),
            ));
        }
    }
    if forall|i: int|
        0 <= i < paths.len() ==> can_be_cut(#[trigger] paths[i], positions, offsets[i]) {
        assert forall|i: int| 0 <= i < paths.len() implies #[trigger] highlight::path_fits(
            paths[i],
            positions,
            highlight::total_len(paths.take(i)),
        ) by {
            assert(can_be_cut(paths[i], positions, offsets[i]));
        }
    }
}

/// The path's text can be cut out of the positions, and its name out of those.
pub open spec fn can_be_cut(path: PathView, positions: Seq<usize>, offset: int) -> bool {
    let n = text::byte_len(path.compact) as int;
    &&& highlight::window_fits(positions, offset, n)
    &&& path.compact_file_name is Some ==> {
        let start = text::last_occurrence(path.compact, path.compact_file_name->0);
        &&& start is Some
        &&& highlight::window_fits(
            highlight::window(positions, offset, n),
            start->0,
            text::byte_len(path.compact_file_name->0) as int,
        )
    }
}

proof fn lemma_offsets(paths: Seq<PathView>, offsets: Seq<int>, i: int)
    requires
        offsets.len() == paths.len(),
        paths.len() > 0 ==> offsets[0] == 0,
        forall|i: int|
            0 < i < paths.len() ==> #[trigger] offsets[i] == offsets[i - 1] + text::byte_len(
                paths[i - 1].compact,
            ),
        0 <= i < paths.len(),
    ensures
        highlight::total_len(paths.take(i)) == offsets[i],
    decreases i,
{
    if i == 0 {
        assert(paths.take(0) =~= Seq::empty());
    } else {
        lemma_offsets(paths, offsets, i - 1);
        assert(paths.take(i).drop_last() =~= paths.take(i - 1));
        assert(paths.take(i).last() == paths[i - 1]);
    }
}

} // verus!
