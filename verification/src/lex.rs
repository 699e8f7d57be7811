//! Lexicographic order on sequences, built from a strict order on their elements.
use vstd::prelude::*;

verus! {

/// `before` never puts an element before itself, may be chained, and decides any two different
/// elements.
pub open spec fn is_strict_order<A>(before: spec_fn(A, A) -> bool) -> bool {
    &&& forall|a: A| !(#[trigger] before(a, a))
    &&& forall|a: A, b: A, c: A| #[trigger] before(a, b) && #[trigger] before(b, c) ==> before(a, c)
    &&& forall|a: A, b: A| a == b || #[trigger] before(a, b) || before(b, a)
}

/// The first element in which `a` and `b` differ decides; a proper prefix stands first.
pub open spec fn lex_before<A>(a: Seq<A>, b: Seq<A>, before: spec_fn(A, A) -> bool) -> bool
    decreases a.len(),
{
    if b.len() == 0 {
        false
    } else if a.len() == 0 {
        true
    } else if a[0] == b[0] {
        lex_before(a.drop_first(), b.drop_first(), before)
    } else {
        before(a[0], b[0])
    }
}

proof fn lemma_lex_irreflexive<A>(a: Seq<A>, before: spec_fn(A, A) -> bool)
    requires
        is_strict_order(before),
    ensures
        !lex_before(a, a, before),
    decreases a.len(),
{
    if a.len() > 0 {
        lemma_lex_irreflexive(a.drop_first(), before);
    }
}

proof fn lemma_lex_transitive<A>(a: Seq<A>, b: Seq<A>, c: Seq<A>, before: spec_fn(A, A) -> bool)
    requires
        is_strict_order(before),
        lex_before(a, b, before),
        lex_before(b, c, before),
    ensures
        lex_before(a, c, before),
    decreases a.len(),
{
    if a.len() > 0 {
        if a[0] == b[0] && b[0] == c[0] {
            lemma_lex_transitive(a.drop_first(), b.drop_first(), c.drop_first(), before);
        } else if a[0] == c[0] {
            assert(before(a[0], b[0]) && before(b[0], c[0]));
            assert(before(a[0], a[0]));
        }
    }
}

proof fn lemma_lex_total<A>(a: Seq<A>, b: Seq<A>, before: spec_fn(A, A) -> bool)
    requires
        is_strict_order(before),
    ensures
        a == b || lex_before(a, b, before) || lex_before(b, a, before),
    decreases a.len(),
{
    if a.len() == 0 || b.len() == 0 {
        if a.len() == b.len() {
            assert(a =~= b);
        }
    } else if a[0] == b[0] {
        lemma_lex_total(a.drop_first(), b.drop_first(), before);
        if a.drop_first() == b.drop_first() {
            assert forall|i: int| 0 <= i < a.len() implies a[i] == b[i] by {
                if i > 0 {
                    assert(a[i] == a.drop_first()[i - 1]);
                    assert(b[i] == b.drop_first()[i - 1]);
                }
            }
            assert(a.len() == a.drop_first().len() + 1);
            assert(b.len() == b.drop_first().len() + 1);
            assert(a =~= b);
        }
    } else {
        assert(before(a[0], b[0]) || before(b[0], a[0]));
    }
}

/// The lexicographic extension of a strict order is a strict order.
pub proof fn lemma_lex_strict_order<A>(before: spec_fn(A, A) -> bool)
    requires
        is_strict_order(before),
    ensures
        is_strict_order(|a: Seq<A>, b: Seq<A>| lex_before(a, b, before)),
{
    let lex = |a: Seq<A>, b: Seq<A>| lex_before(a, b, before);
    assert forall|a: Seq<A>| !(#[trigger] lex(a, a)) by {
        lemma_lex_irreflexive(a, before);
    }
    assert forall|a: Seq<A>, b: Seq<A>, c: Seq<A>| #[trigger]
        lex(a, b) && #[trigger] lex(b, c) implies lex(a, c) by {
        lemma_lex_transitive(a, b, c, before);
    }
    assert forall|a: Seq<A>, b: Seq<A>| a == b || #[trigger] lex(a, b) || lex(b, a) by {
        lemma_lex_total(a, b, before);
    }
}

/// Dropping a common prefix does not change the order.
pub proof fn lemma_lex_skip<A>(a: Seq<A>, b: Seq<A>, before: spec_fn(A, A) -> bool, n: int)
    requires
        0 <= n <= a.len(),
        n <= b.len(),
        forall|i: int| 0 <= i < n ==> #[trigger] a[i] == b[i],
    ensures
        lex_before(a, b, before) == lex_before(a.skip(n), b.skip(n), before),
    decreases n,
{
    if n == 0 {
        assert(a.skip(0) =~= a);
        assert(b.skip(0) =~= b);
    } else {
        assert(a[0] == b[0]);
        let a1 = a.drop_first();
        let b1 = b.drop_first();
        assert forall|i: int| 0 <= i < n - 1 implies #[trigger] a1[i] == b1[i] by {
            assert(a[i + 1] == b[i + 1]);
        }
        lemma_lex_skip(a1, b1, before, n - 1);
        assert(a1.skip(n - 1) =~= a.skip(n));
        assert(b1.skip(n - 1) =~= b.skip(n));
    }
}

} // verus!
