//! Text operations: trimming, comparing without case, ordering, joining.
use crate::lex;
use vstd::prelude::*;

verus! {

/// The text in UTF-8.
pub open spec fn bytes(s: Seq<char>) -> Seq<u8> {
    vstd::utf8::encode_utf8(s)
}

/// The length of `s` in UTF-8.
pub open spec fn byte_len(s: Seq<char>) -> nat {
    bytes(s).len()
}

/// How many bytes the text takes up.
pub fn len_in_bytes(s: &str) -> (r: usize)
    ensures
        r == byte_len(s@),
{
    s.as_bytes().len()
}

/// `part` stands in `whole` at byte `i`.
pub open spec fn occurs_at(whole: Seq<u8>, part: Seq<u8>, i: int) -> bool {
    0 <= i <= whole.len() - part.len() && whole.subrange(i, i + part.len()) == part
}

/// `part` stands somewhere in `whole`.
pub open spec fn occurs(whole: Seq<char>, part: Seq<char>) -> bool {
    exists|i: int| occurs_at(bytes(whole), bytes(part), i)
}

/// `part` stands in `whole` at byte `i`, and nowhere behind.
pub open spec fn occurs_last_at(whole: Seq<u8>, part: Seq<u8>, i: int) -> bool {
    &&& occurs_at(whole, part, i)
    &&& forall|j: int| j > i ==> !#[trigger] occurs_at(whole, part, j)
}

/// The last byte of `whole` at which `part` stands.
pub open spec fn last_occurrence(whole: Seq<char>, part: Seq<char>) -> Option<int> {
    if occurs(whole, part) {
        Some(choose|i: int| occurs_last_at(bytes(whole), bytes(part), i))
    } else {
        None
    }
}

pub proof fn lemma_last_occurrence_is(whole: Seq<char>, part: Seq<char>, i: int)
    requires
        occurs_last_at(bytes(whole), bytes(part), i),
    ensures
        last_occurrence(whole, part) == Some(i),
{
    let w = bytes(whole);
    let p = bytes(part);
    let c = choose|c: int| occurs_last_at(w, p, c);
    assert(occurs_last_at(w, p, c));
    if c < i {
        assert(!occurs_at(w, p, i));
    }
    if i < c {
        assert(!occurs_at(w, p, c));
    }
}

proof fn lemma_occurs_last(whole: Seq<u8>, part: Seq<u8>, i: int)
    requires
        occurs_at(whole, part, i),
    ensures
        exists|k: int| occurs_last_at(whole, part, k),
    decreases whole.len() - i,
{
    if exists|j: int| j > i && occurs_at(whole, part, j) {
        let j = choose|j: int| j > i && occurs_at(whole, part, j);
        lemma_occurs_last(whole, part, j);
    } else {
        assert(occurs_last_at(whole, part, i));
    }
}

/// What occurs has a last occurrence.
pub proof fn lemma_last_occurrence(whole: Seq<char>, part: Seq<char>)
    requires
        occurs(whole, part),
    ensures
        last_occurrence(whole, part) matches Some(i) && occurs_last_at(
            bytes(whole),
            bytes(part),
            i,
        ),
{
    let i = choose|i: int| occurs_at(bytes(whole), bytes(part), i);
    lemma_occurs_last(bytes(whole), bytes(part), i);
}

fn stands_at(whole: &[u8], part: &[u8], at: usize) -> (r: bool)
    requires
        at + part@.len() <= whole@.len(),
    ensures
        r == occurs_at(whole@, part@, at as int),
{
    let end: usize = whole.len();
    let mut k: usize = 0;
    while k < part.len()
        invariant
            k <= part@.len(),
            at + part@.len() <= whole@.len(),
            end == whole@.len(),
            forall|j: int| 0 <= j < k ==> #[trigger] part@[j] == whole@[at + j],
        decreases part@.len() - k,
    {
        if whole[at + k] != part[k] {
            assert(whole@.subrange(at as int, at + part@.len())[k as int] != part@[k as int]);
            return false;
        }
        k = k + 1;
    }
    assert(whole@.subrange(at as int, at + part@.len()) =~= part@);
    true
}

/// The last byte of `whole` at which `part` stands, where it does.
pub fn find_last(whole: &str, part: &str) -> (r: Option<usize>)
    ensures
        r is Some == last_occurrence(whole@, part@) is Some,
        r matches Some(i) ==> last_occurrence(whole@, part@) == Some(i as int),
        r matches Some(i) ==> i + byte_len(part@) <= byte_len(whole@),
{
    let w: &[u8] = whole.as_bytes();
    let p: &[u8] = part.as_bytes();
    if p.len() > w.len() {
        return None;
    }
    let mut i: usize = w.len() - p.len();
    loop
        invariant
            w@ == bytes(whole@),
            p@ == bytes(part@),
            i + p@.len() <= w@.len(),
            forall|j: int| j > i ==> !#[trigger] occurs_at(w@, p@, j),
        decreases i,
    {
        if stands_at(w, p, i) {
            proof {
                lemma_last_occurrence_is(whole@, part@, i as int);
            }
            return Some(i);
        }
        if i == 0 {
            return None;
        }
        i = i - 1;
    }
}

/// The Unicode property `White_Space`.
pub open spec fn white_space(c: char) -> bool {
    ||| 0x09 <= c as u32 <= 0x0d
    ||| c as u32 == 0x20
    ||| c as u32 == 0x85
    ||| c as u32 == 0xa0
    ||| c as u32 == 0x1680
    ||| 0x2000 <= c as u32 <= 0x200a
    ||| c as u32 == 0x2028
    ||| c as u32 == 0x2029
    ||| c as u32 == 0x202f
    ||| c as u32 == 0x205f
    ||| c as u32 == 0x3000
}

pub fn is_white_space(c: char) -> (r: bool)
    ensures
        r == white_space(c),
{
    let v: u32 = c as u32;
    (0x09 <= v && v <= 0x0d) || v == 0x20 || v == 0x85 || v == 0xa0 || v == 0x1680 || (0x2000 <= v
        && v <= 0x200a) || v == 0x2028 || v == 0x2029 || v == 0x202f || v == 0x205f || v == 0x3000
}

/// `s` without its leading white space.
pub open spec fn trimmed_start(s: Seq<char>) -> Seq<char>
    decreases s.len(),
{
    if s.len() > 0 && white_space(s[0]) {
        trimmed_start(s.drop_first())
    } else {
        s
    }
}

/// `s` without its trailing white space.
pub open spec fn trimmed_end(s: Seq<char>) -> Seq<char>
    decreases s.len(),
{
    if s.len() > 0 && white_space(s.last()) {
        trimmed_end(s.drop_last())
    } else {
        s
    }
}

/// `s` without its leading and its trailing white space.
pub open spec fn trimmed(s: Seq<char>) -> Seq<char> {
    trimmed_end(trimmed_start(s))
}

/// The characters of `s`.
pub fn chars_of(s: &str) -> (r: Vec<char>)
    ensures
        r@ == s@,
{
    let mut r: Vec<char> = Vec::new();
    for c in iter: s.chars()
        invariant
            iter.seq() == s@,
            r@ == s@.take(iter.index() as int),
    {
        r.push(c);
    }
    assert(s@.take(s@.len() as int) =~= s@);
    r
}

pub fn trim_start(s: &str) -> (r: String)
    ensures
        r@ == trimmed_start(s@),
{
    let cs: Vec<char> = chars_of(s);
    let mut i: usize = 0;
    assert(s@.skip(0) =~= s@);
    while i < cs.len() && is_white_space(cs[i])
        invariant
            i <= cs@.len(),
            cs@ == s@,
            trimmed_start(s@) == trimmed_start(s@.skip(i as int)),
        decreases cs@.len() - i,
    {
        assert(s@.skip(i as int)[0] == s@[i as int]);
        assert(s@.skip(i as int).drop_first() =~= s@.skip(i + 1));
        i = i + 1;
    }
    proof {
        if i < cs@.len() {
            assert(s@.skip(i as int)[0] == s@[i as int]);
        }
        assert(s@.subrange(i as int, cs@.len() as int) =~= s@.skip(i as int));
    }
    s.substring_char(i, cs.len()).to_owned()
}

pub fn trim_end(s: &str) -> (r: String)
    ensures
        r@ == trimmed_end(s@),
{
    let cs: Vec<char> = chars_of(s);
    let mut n: usize = cs.len();
    assert(s@.take(n as int) =~= s@);
    while n > 0 && is_white_space(cs[n - 1])
        invariant
            n <= cs@.len(),
            cs@ == s@,
            trimmed_end(s@) == trimmed_end(s@.take(n as int)),
        decreases n,
    {
        assert(s@.take(n as int).last() == s@[n - 1]);
        assert(s@.take(n as int).drop_last() =~= s@.take(n - 1));
        n = n - 1;
    }
    proof {
        if n > 0 {
            assert(s@.take(n as int).last() == s@[n - 1]);
        }
        assert(s@.subrange(0, n as int) =~= s@.take(n as int));
    }
    s.substring_char(0, n).to_owned()
}

pub fn trim(s: &str) -> (r: String)
    ensures
        r@ == trimmed(s@),
{
    let start: String = trim_start(s);
    trim_end(start.as_str())
}

/// `c`, or the lower-case letter where `c` is an upper-case ASCII letter.
pub open spec fn ascii_lower(c: char) -> char {
    if 'A' <= c && c <= 'Z' {
        (c as u32 + 32) as char
    } else {
        c
    }
}

/// `a` and `b` agree up to the case of ASCII letters.
pub open spec fn same_ignoring_ascii_case(a: Seq<char>, b: Seq<char>) -> bool {
    &&& a.len() == b.len()
    &&& forall|i: int| 0 <= i < a.len() ==> ascii_lower(#[trigger] a[i]) == ascii_lower(b[i])
}

fn ascii_lower_code(c: char) -> (r: u32)
    ensures
        r == ascii_lower(c) as u32,
{
    let v: u32 = c as u32;
    if v >= 65 && v <= 90 {
        v + 32
    } else {
        v
    }
}

pub fn eq_ignore_ascii_case(a: &str, b: &str) -> (r: bool)
    ensures
        r == same_ignoring_ascii_case(a@, b@),
{
    let x: Vec<char> = chars_of(a);
    let y: Vec<char> = chars_of(b);
    if x.len() != y.len() {
        return false;
    }
    let mut i: usize = 0;
    while i < x.len()
        invariant
            i <= x@.len(),
            x@ == a@,
            y@ == b@,
            x@.len() == y@.len(),
            forall|j: int| 0 <= j < i ==> ascii_lower(#[trigger] a@[j]) == ascii_lower(b@[j]),
        decreases x@.len() - i,
    {
        if ascii_lower_code(x[i]) != ascii_lower_code(y[i]) {
            assert(ascii_lower(a@[i as int]) != ascii_lower(b@[i as int]));
            return false;
        }
        i = i + 1;
    }
    true
}

/// The order of characters: by code point.
pub open spec fn char_order() -> spec_fn(char, char) -> bool {
    |a: char, b: char| (a as int) < (b as int)
}

/// The order of texts: `a` stands before `b`.
pub open spec fn text_before(a: Seq<char>, b: Seq<char>) -> bool {
    lex::lex_before(a, b, char_order())
}

/// Texts are totally ordered.
pub proof fn lemma_text_order()
    ensures
        lex::is_strict_order(|a: Seq<char>, b: Seq<char>| text_before(a, b)),
{
    let order = char_order();
    assert forall|a: char, b: char| a == b || #[trigger] order(a, b) || order(b, a) by {}
    assert forall|a: char, b: char, c: char| #[trigger] order(a, b) && #[trigger] order(
        b,
        c,
    ) implies order(a, c) by {}
    assert(lex::is_strict_order(order));
    lex::lemma_lex_strict_order(char_order());
    let f = |a: Seq<char>, b: Seq<char>| lex::lex_before(a, b, char_order());
    let g = |a: Seq<char>, b: Seq<char>| text_before(a, b);
    assert forall|a: Seq<char>, b: Seq<char>| #[trigger] g(a, b) == f(a, b) by {}
    assert(f =~= g);
}

fn is_char_before(a: char, b: char) -> (r: bool)
    ensures
        r == char_order()(a, b),
{
    (a as u32) < (b as u32)
}

pub fn is_text_before(a: &str, b: &str) -> (r: bool)
    ensures
        r == text_before(a@, b@),
{
    let x: Vec<char> = chars_of(a);
    let y: Vec<char> = chars_of(b);
    let mut i: usize = 0;
    while i < x.len() && i < y.len() && x[i] == y[i]
        invariant
            i <= x@.len(),
            i <= y@.len(),
            x@ == a@,
            y@ == b@,
            forall|j: int| 0 <= j < i ==> #[trigger] x@[j] == y@[j],
        decreases x@.len() - i,
    {
        i = i + 1;
    }
    proof {
        lex::lemma_lex_skip(x@, y@, char_order(), i as int);
        if i < x@.len() {
            assert(x@.skip(i as int)[0] == x@[i as int]);
        }
        if i < y@.len() {
            assert(y@.skip(i as int)[0] == y@[i as int]);
        }
    }
    if i == y.len() {
        false
    } else if i == x.len() {
        true
    } else {
        is_char_before(x[i], y[i])
    }
}

/// The parts one after another, with `sep` between neighbours.
pub open spec fn joined(parts: Seq<Seq<char>>, sep: Seq<char>) -> Seq<char>
    decreases parts.len(),
{
    if parts.len() == 0 {
        Seq::empty()
    } else if parts.len() == 1 {
        parts[0]
    } else {
        joined(parts.drop_last(), sep) + sep + parts.last()
    }
}

pub fn join(parts: &Vec<String>, sep: &str) -> (r: String)
    ensures
        r@ == joined(crate::seqs::views(parts@), sep@),
{
    let mut r: String = String::new();
    let mut i: usize = 0;
    let ghost all = crate::seqs::views(parts@);
    assert(all.take(0) =~= Seq::empty());
    while i < parts.len()
        invariant
            i <= parts@.len(),
            all == crate::seqs::views(parts@),
            r@ == joined(all.take(i as int), sep@),
        decreases parts@.len() - i,
    {
        assert(all.take(i + 1).drop_last() =~= all.take(i as int));
        assert(all.take(i + 1).last() == parts@[i as int]@);
        if i > 0 {
            r.append(sep);
        }
        r.append(parts[i].as_str());
        i = i + 1;
    }
    assert(all.take(i as int) =~= all);
    r
}

/// The lower-case form of a text, as Unicode maps it.
pub uninterp spec fn lowercase(s: Seq<char>) -> Seq<char>;

/// Calls `str::to_lowercase`. That the result is a function of the text alone is not proved here;
/// nothing is said of which text it is.
#[verifier::external_body]
pub(crate) fn to_lowercase(s: &str) -> (r: String)
    ensures
        r@ == lowercase(s@),
{
    s.to_lowercase()
}

} // verus!
