//! What holds of texts: how they are trimmed, compared, joined and put in order.
use crate::lex;
use crate::text;
use vstd::prelude::*;

verus! {

/// The text is the parts one behind another, with the separator between neighbours: each part
/// begins where the separator behind the one before it ends.
pub open spec fn strung(
    parts: Seq<Seq<char>>,
    sep: Seq<char>,
    s: Seq<char>,
    starts: Seq<int>,
) -> bool {
    &&& starts.len() == parts.len()
    &&& parts.len() == 0 ==> s.len() == 0
    &&& parts.len() > 0 ==> starts[0] == 0 && starts.last() + parts.last().len() == s.len()
    &&& forall|i: int|
        0 <= i < parts.len() ==> 0 <= #[trigger] starts[i] && starts[i] + parts[i].len() <= s.len()
            && s.subrange(starts[i], starts[i] + parts[i].len()) == parts[i]
    &&& forall|i: int|
        0 < i < parts.len() ==> #[trigger] starts[i] == starts[i - 1] + parts[i - 1].len()
            + sep.len() && s.subrange(starts[i] - sep.len(), starts[i]) == sep
}

/// A joined text holds all its parts, in order, with the separator between them and nothing else.
pub proof fn joined_texts_are_strung(parts: Seq<Seq<char>>, sep: Seq<char>) -> (starts: Seq<int>)
    ensures
        strung(parts, sep, text::joined(parts, sep), starts),
    decreases parts.len(),
{
    let s = text::joined(parts, sep);
    if parts.len() == 0 {
        Seq::empty()
    } else if parts.len() == 1 {
        let starts = seq![0int];
        assert(s.subrange(0, s.len() as int) =~= s);
        starts
    } else {
        let front = parts.drop_last();
        let rest = text::joined(front, sep);
        let before = joined_texts_are_strung(front, sep);
        let at: int = (rest.len() + sep.len()) as int;
        let starts = before.push(at);
        assert(s == rest + sep + parts.last());
        assert forall|i: int| 0 <= i < parts.len() implies 0 <= #[trigger] starts[i] && starts[i]
            + parts[i].len() <= s.len() && s.subrange(starts[i], starts[i] + parts[i].len())
            == parts[i] by {
            if i < front.len() {
                assert(starts[i] == before[i] && parts[i] == front[i]);
                assert(s.subrange(starts[i], starts[i] + parts[i].len()) =~= rest.subrange(
                    before[i],
                    before[i] + front[i].len(),
                ));
            } else {
                assert(s.subrange(at, at + parts[i].len()) =~= parts[i]);
            }
        }
        assert forall|i: int| 0 < i < parts.len() implies #[trigger] starts[i] == starts[i - 1]
            + parts[i - 1].len() + sep.len() && s.subrange(starts[i] - sep.len(), starts[i])
            == sep by {
            if i < front.len() {
                assert(starts[i] == before[i] && starts[i - 1] == before[i - 1]);
                assert(parts[i - 1] == front[i - 1]);
                assert(rest.subrange(before[i] - sep.len(), before[i]) == sep);
                assert(s.subrange(starts[i] - sep.len(), starts[i]) =~= rest.subrange(
                    before[i] - sep.len(),
                    before[i],
                ));
            } else {
                assert(starts[i - 1] == before.last());
                assert(s.subrange(at - sep.len(), at) =~= sep);
            }
        }
        starts
    }
}

/// White space is what Unicode calls so: the tab up to the carriage return, the space, the next
/// line, and the spaces and separators beyond Latin-1. No letter and no digit is.
pub proof fn white_space_is_that_of_unicode(c: char)
    ensures
        c == '\t' || c == '\n' || c == '\u{b}' || c == '\u{c}' || c == '\r' || c == ' ' || c
            == '\u{85}' || c == '\u{a0}' || c == '\u{1680}' || c == '\u{2000}' || c == '\u{2001}'
            || c == '\u{2002}' || c == '\u{2003}' || c == '\u{2004}' || c == '\u{2005}' || c
            == '\u{2006}' || c == '\u{2007}' || c == '\u{2008}' || c == '\u{2009}' || c
            == '\u{200a}' || c == '\u{2028}' || c == '\u{2029}' || c == '\u{202f}' || c
            == '\u{205f}' || c == '\u{3000}' <==> text::white_space(c),
{
}

/// Trimming takes off white space at the beginning and nothing else: what is left begins with
/// another character, or nothing is left.
pub proof fn trimming_the_start_drops_white_space(s: Seq<char>) -> (n: int)
    ensures
        0 <= n <= s.len(),
        text::trimmed_start(s) == s.skip(n),
        forall|i: int| 0 <= i < n ==> text::white_space(#[trigger] s[i]),
        n < s.len() ==> !text::white_space(s[n]),
    decreases s.len(),
{
    if s.len() > 0 && text::white_space(s[0]) {
        let rest = s.drop_first();
        let n = trimming_the_start_drops_white_space(rest);
        assert(rest.skip(n) =~= s.skip(n + 1));
        assert forall|i: int| 0 <= i < n + 1 implies text::white_space(#[trigger] s[i]) by {
            if i > 0 {
                assert(s[i] == rest[i - 1]);
            }
        }
        if n < rest.len() {
            assert(rest[n] == s[n + 1]);
        }
        n + 1
    } else {
        assert(s.skip(0) =~= s);
        0
    }
}

/// Trimming takes off white space at the end and nothing else.
pub proof fn trimming_the_end_drops_white_space(s: Seq<char>) -> (n: int)
    ensures
        0 <= n <= s.len(),
        text::trimmed_end(s) == s.take(n),
        forall|i: int| n <= i < s.len() ==> text::white_space(#[trigger] s[i]),
        n > 0 ==> !text::white_space(s[n - 1]),
    decreases s.len(),
{
    if s.len() > 0 && text::white_space(s.last()) {
        let rest = s.drop_last();
        let n = trimming_the_end_drops_white_space(rest);
        assert(rest.take(n) =~= s.take(n));
        assert forall|i: int| n <= i < s.len() implies text::white_space(#[trigger] s[i]) by {
            if i < rest.len() {
                assert(s[i] == rest[i]);
            }
        }
        if n > 0 {
            assert(rest[n - 1] == s[n - 1]);
        }
        n
    } else {
        assert(s.take(s.len() as int) =~= s);
        s.len() as int
    }
}

/// A trimmed text is a part of the text between white space, and has none at its ends.
pub proof fn trimming_drops_white_space(s: Seq<char>) -> (r: (int, int))
    ensures
        0 <= r.0 <= r.1 <= s.len(),
        text::trimmed(s) == s.subrange(r.0, r.1),
        forall|i: int| 0 <= i < r.0 || r.1 <= i < s.len() ==> text::white_space(#[trigger] s[i]),
        r.0 < r.1 ==> !text::white_space(s[r.0]) && !text::white_space(s[r.1 - 1]),
{
    let n = trimming_the_start_drops_white_space(s);
    let rest = s.skip(n);
    let m = trimming_the_end_drops_white_space(rest);
    assert(rest.take(m) =~= s.subrange(n, n + m));
    assert forall|i: int| 0 <= i < n || n + m <= i < s.len() implies text::white_space(
        #[trigger] s[i],
    ) by {
        if i >= n {
            assert(rest[i - n] == s[i]);
        }
    }
    if m > 0 {
        assert(rest[m - 1] == s[n + m - 1]);
        if n < s.len() {
            assert(rest[0] == s[n]);
        }
    }
    (n, n + m)
}

/// Texts agree up to case exactly where they are as long, and each character is that of the other
/// or the two are one ASCII letter in both cases.
pub proof fn case_is_that_of_ascii_letters(a: Seq<char>, b: Seq<char>)
    ensures
        text::same_ignoring_ascii_case(a, b) <==> a.len() == b.len() && forall|i: int|
            0 <= i < a.len() ==> {
                ||| #[trigger] a[i] == b[i]
                ||| 'A' <= a[i] <= 'Z' && b[i] as int == a[i] as int + 32
                ||| 'A' <= b[i] <= 'Z' && a[i] as int == b[i] as int + 32
            },
{
    if text::same_ignoring_ascii_case(a, b) {
        assert forall|i: int| 0 <= i < a.len() implies {
            ||| #[trigger] a[i] == b[i]
            ||| 'A' <= a[i] <= 'Z' && b[i] as int == a[i] as int + 32
            ||| 'A' <= b[i] <= 'Z' && a[i] as int == b[i] as int + 32
        } by {
            assert(text::ascii_lower(a[i]) == text::ascii_lower(b[i]));
        }
    }
}

proof fn lemma_difference_decides(a: Seq<char>, b: Seq<char>, n: int)
    requires
        0 <= n <= a.len(),
        n < b.len(),
        forall|i: int| 0 <= i < n ==> #[trigger] a[i] == b[i],
        n < a.len() ==> a[n] != b[n],
    ensures
        text::text_before(a, b) <==> n == a.len() || (a[n] as int) < (b[n] as int),
{
    lex::lemma_lex_skip(a, b, text::char_order(), n);
    assert(b.skip(n)[0] == b[n]);
    if n < a.len() {
        assert(a.skip(n)[0] == a[n]);
    }
}

/// The texts agree up to `n`, where `a` ends or has the lesser character.
pub open spec fn falls_behind_at(a: Seq<char>, b: Seq<char>, n: int) -> bool {
    &&& 0 <= n <= a.len()
    &&& n < b.len()
    &&& a.take(n) == b.take(n)
    &&& n == a.len() || (a[n] as int) < (b[n] as int)
}

/// Texts are ordered by the first character in which they differ; a proper beginning of a text
/// stands before it.
pub proof fn the_first_difference_orders_texts(a: Seq<char>, b: Seq<char>)
    ensures
        text::text_before(a, b) <==> exists|n: int| falls_behind_at(a, b, n),
{
    if text::text_before(a, b) {
        let n = lemma_first_difference(a, b);
        if n == b.len() {
            lex::lemma_lex_skip(a, b, text::char_order(), n);
        } else {
            lemma_difference_decides(a, b, n);
            assert(a.take(n) =~= b.take(n));
            assert(falls_behind_at(a, b, n));
        }
    }
    if exists|n: int| falls_behind_at(a, b, n) {
        let n = choose|n: int| falls_behind_at(a, b, n);
        assert forall|i: int| 0 <= i < n implies #[trigger] a[i] == b[i] by {
            assert(a.take(n)[i] == b.take(n)[i]);
        }
        lemma_difference_decides(a, b, n);
    }
}

proof fn lemma_first_difference(a: Seq<char>, b: Seq<char>) -> (n: int)
    ensures
        0 <= n <= a.len(),
        n <= b.len(),
        forall|i: int| 0 <= i < n ==> #[trigger] a[i] == b[i],
        n < a.len() && n < b.len() ==> a[n] != b[n],
    decreases a.len(),
{
    if a.len() == 0 || b.len() == 0 || a[0] != b[0] {
        0
    } else {
        let n = lemma_first_difference(a.drop_first(), b.drop_first());
        assert forall|i: int| 0 <= i < n + 1 implies #[trigger] a[i] == b[i] by {
            if i > 0 {
                assert(a.drop_first()[i - 1] == b.drop_first()[i - 1]);
            }
        }
        if n + 1 < a.len() && n + 1 < b.len() {
            assert(a.drop_first()[n] == a[n + 1] && b.drop_first()[n] == b[n + 1]);
        }
        n + 1
    }
}

/// The bytes of `part` stand in those of `whole`, from byte `i` on.
pub open spec fn stands_at(whole: Seq<char>, part: Seq<char>, i: int) -> bool {
    &&& 0 <= i <= text::byte_len(whole) - text::byte_len(part)
    &&& forall|k: int|
        0 <= k < text::byte_len(part) ==> text::bytes(whole)[i + k] == #[trigger] text::bytes(
            part,
        )[k]
}

proof fn lemma_stands_at(whole: Seq<char>, part: Seq<char>, i: int)
    ensures
        stands_at(whole, part, i) <==> text::occurs_at(text::bytes(whole), text::bytes(part), i),
{
    let a = text::bytes(whole);
    let b = text::bytes(part);
    if stands_at(whole, part, i) {
        assert(a.subrange(i, i + b.len()) =~= b);
    }
    if text::occurs_at(a, b, i) {
        assert forall|k: int| 0 <= k < b.len() implies a[i + k] == #[trigger] b[k] by {
            assert(a.subrange(i, i + b.len())[k] == a[i + k]);
        }
    }
}

/// A text is found where its bytes stand last; it is found wherever they stand at all.
pub proof fn texts_are_found_where_they_stand_last(whole: Seq<char>, part: Seq<char>, i: int)
    ensures
        text::last_occurrence(whole, part) == Some(i) <==> stands_at(whole, part, i) && forall|
            j: int,
        |
            j > i ==> !#[trigger] stands_at(whole, part, j),
        text::last_occurrence(whole, part) is None <==> forall|j: int|
            !#[trigger] stands_at(whole, part, j),
{
    let a = text::bytes(whole);
    let b = text::bytes(part);
    assert forall|j: int| #[trigger] stands_at(whole, part, j) == text::occurs_at(a, b, j) by {
        lemma_stands_at(whole, part, j);
    }
    if stands_at(whole, part, i) && forall|j: int| j > i ==> !#[trigger] stands_at(whole, part, j) {
        assert forall|j: int| j > i implies !#[trigger] text::occurs_at(a, b, j) by {
            assert(!stands_at(whole, part, j));
        }
        text::lemma_last_occurrence_is(whole, part, i);
    }
    if text::last_occurrence(whole, part) is Some {
        text::lemma_last_occurrence(whole, part);
        let k = text::last_occurrence(whole, part)->0;
        assert(stands_at(whole, part, k));
        assert forall|j: int| j > k implies !#[trigger] stands_at(whole, part, j) by {
            assert(!text::occurs_at(a, b, j));
        }
    } else {
        assert forall|j: int| !#[trigger] stands_at(whole, part, j) by {
            assert(!text::occurs_at(a, b, j));
        }
    }
}

} // verus!
