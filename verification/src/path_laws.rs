//! What holds of paths: when components are the same, and how paths are ordered.
use crate::lex;
use crate::path;
use crate::path::{ComponentView, PathComponent, PathPrefix, ProjectPath};
use vstd::prelude::*;

verus! {

/// The letters of two drives are the same, in whatever case.
pub open spec fn same_drive(a: u8, b: u8) -> bool {
    ||| a == b
    ||| 0x41 <= a <= 0x5a && b == a + 0x20
    ||| 0x41 <= b <= 0x5a && a == b + 0x20
}

/// The prefixes are of the same kind and name the same.
pub open spec fn same_prefix(a: PathPrefix, b: PathPrefix) -> bool {
    match (a, b) {
        (PathPrefix::Verbatim(x), PathPrefix::Verbatim(y)) => x@ == y@,
        (PathPrefix::VerbatimUnc(x, s), PathPrefix::VerbatimUnc(y, t)) => x@ == y@ && s@ == t@,
        (PathPrefix::VerbatimDisk(x), PathPrefix::VerbatimDisk(y)) => same_drive(x, y),
        (PathPrefix::DeviceNs(x), PathPrefix::DeviceNs(y)) => x@ == y@,
        (PathPrefix::Unc(x, s), PathPrefix::Unc(y, t)) => x@ == y@ && s@ == t@,
        (PathPrefix::Disk(x), PathPrefix::Disk(y)) => same_drive(x, y),
        _ => false,
    }
}

/// The name of the prefix's server holds no zero byte.
pub open spec fn names_a_server(a: PathPrefix) -> bool {
    match a {
        PathPrefix::VerbatimUnc(server, _) => !server@.contains(0u8),
        PathPrefix::Unc(server, _) => !server@.contains(0u8),
        _ => true,
    }
}

/// Two components are the same exactly where they are of the same kind and have the same name,
/// byte by byte.
pub proof fn components_are_told_apart(a: PathComponent, b: PathComponent)
    requires
        a is Prefix ==> names_a_server(a->Prefix_0),
        b is Prefix ==> names_a_server(b->Prefix_0),
    ensures
        a@ == b@ <==> match (a, b) {
            (PathComponent::Prefix(x), PathComponent::Prefix(y)) => same_prefix(x, y),
            (PathComponent::RootDir, PathComponent::RootDir) => true,
            (PathComponent::CurDir, PathComponent::CurDir) => true,
            (PathComponent::ParentDir, PathComponent::ParentDir) => true,
            (PathComponent::Normal(x), PathComponent::Normal(y)) => x@ == y@,
            _ => false,
        },
{
    match (a, b) {
        (PathComponent::Prefix(x), PathComponent::Prefix(y)) => {
            lemma_same_prefix(x, y);
        },
        _ => {},
    }
}

proof fn lemma_tagged(kind: u8, a: Seq<u8>, b: Seq<u8>)
    ensures
        seq![kind] + a == seq![kind] + b <==> a == b,
{
    if seq![kind] + a == seq![kind] + b {
        assert(a =~= (seq![kind] + a).skip(1));
        assert(b =~= (seq![kind] + b).skip(1));
    }
}

proof fn lemma_same_prefix(a: PathPrefix, b: PathPrefix)
    requires
        names_a_server(a),
        names_a_server(b),
    ensures
        a.key() == b.key() <==> same_prefix(a, b),
{
    assert(a.key().len() > 0 && b.key().len() > 0);
    if a.key() == b.key() {
        assert(a.key()[0] == b.key()[0]);
    }
    match (a, b) {
        (PathPrefix::Verbatim(x), PathPrefix::Verbatim(y)) => {
            lemma_tagged(0, x@, y@);
        },
        (PathPrefix::VerbatimUnc(x, s), PathPrefix::VerbatimUnc(y, t)) => {
            if a.key() == b.key() {
                path::shares_are_told_apart(x@, s@, y@, t@, 1);
            }
        },
        (PathPrefix::VerbatimDisk(x), PathPrefix::VerbatimDisk(y)) => {
            if a.key() == b.key() {
                assert(a.key()[1] == b.key()[1]);
            }
        },
        (PathPrefix::DeviceNs(x), PathPrefix::DeviceNs(y)) => {
            lemma_tagged(3, x@, y@);
        },
        (PathPrefix::Unc(x, s), PathPrefix::Unc(y, t)) => {
            if a.key() == b.key() {
                path::shares_are_told_apart(x@, s@, y@, t@, 4);
            }
        },
        (PathPrefix::Disk(x), PathPrefix::Disk(y)) => {
            if a.key() == b.key() {
                assert(a.key()[1] == b.key()[1]);
            }
        },
        _ => {},
    }
}

/// Two paths are the same exactly where they have as many components, and the same ones.
pub proof fn paths_are_told_apart(a: ProjectPath, b: ProjectPath)
    ensures
        a@.components == b@.components <==> a.components@.len() == b.components@.len() && forall|
            i: int,
        |
            0 <= i < a.components@.len() ==> (#[trigger] a.components@[i])@ == b.components@[i]@,
{
    if a@.components == b@.components {
        assert(a@.components.len() == a.components@.len());
        assert(b@.components.len() == b.components@.len());
        assert forall|i: int| 0 <= i < a.components@.len() implies (#[trigger] a.components@[i])@
            == b.components@[i]@ by {
            assert(a@.components[i] == a.components@[i]@);
            assert(b@.components[i] == b.components@[i]@);
        }
    }
    if a.components@.len() == b.components@.len() && forall|i: int|
        0 <= i < a.components@.len() ==> (#[trigger] a.components@[i])@ == b.components@[i]@ {
        assert(a@.components =~= b@.components);
    }
}

/// The sequences agree up to `n`, where `a` ends or has the element that stands before.
pub open spec fn falls_behind_at<A>(
    a: Seq<A>,
    b: Seq<A>,
    before: spec_fn(A, A) -> bool,
    n: int,
) -> bool {
    &&& 0 <= n <= a.len()
    &&& n < b.len()
    &&& a.take(n) == b.take(n)
    &&& n == a.len() || (a[n] != b[n] && before(a[n], b[n]))
}

proof fn lemma_difference<A>(a: Seq<A>, b: Seq<A>) -> (n: int)
    ensures
        0 <= n <= a.len(),
        n <= b.len(),
        forall|i: int| 0 <= i < n ==> #[trigger] a[i] == b[i],
        n < a.len() && n < b.len() ==> a[n] != b[n],
    decreases a.len(),
{
    if a.len() == 0 || b.len() == 0 || a[0] != b[0] {
        0
    } else {
        let n = lemma_difference(a.drop_first(), b.drop_first());
        assert forall|i: int| 0 <= i < n + 1 implies #[trigger] a[i] == b[i] by {
            if i > 0 {
                assert(a[i] == a.drop_first()[i - 1]);
                assert(b[i] == b.drop_first()[i - 1]);
            }
        }
        if n + 1 < a.len() && n + 1 < b.len() {
            assert(a[n + 1] == a.drop_first()[n]);
            assert(b[n + 1] == b.drop_first()[n]);
        }
        n + 1
    }
}

proof fn lemma_first_difference_decides<A>(a: Seq<A>, b: Seq<A>, before: spec_fn(A, A) -> bool)
    ensures
        lex::lex_before(a, b, before) <==> exists|n: int| falls_behind_at(a, b, before, n),
{
    let n = lemma_difference(a, b);
    lex::lemma_lex_skip(a, b, before, n);
    let x = a.skip(n);
    let y = b.skip(n);
    if n < a.len() {
        assert(x[0] == a[n]);
    }
    if n < b.len() {
        assert(y[0] == b[n]);
    }
    if lex::lex_before(a, b, before) {
        assert(a.take(n) =~= b.take(n));
        assert(falls_behind_at(a, b, before, n));
    }
    if exists|m: int| falls_behind_at(a, b, before, m) {
        let m = choose|m: int| falls_behind_at(a, b, before, m);
        if m < n {
            assert(a[m] == b[m]);
        }
        if n < m {
            assert(a.take(m)[n] == b.take(m)[n]);
        }
    }
}

/// Paths are ordered by the first component in which they differ; a path stands before those
/// inside it.
pub proof fn the_first_component_orders_paths(a: Seq<ComponentView>, b: Seq<ComponentView>)
    ensures
        path::path_before(a, b) <==> exists|n: int|
            falls_behind_at(a, b, path::component_order(), n),
{
    lemma_first_difference_decides(a, b, path::component_order());
}

/// Prefixes stand before the root, the root before the current and the parent directory, and
/// those before names.
pub proof fn kinds_order_components(a: PathComponent, b: PathComponent)
    ensures
        a is Prefix && !(b is Prefix) ==> path::component_order()(a@, b@),
        a is RootDir && (b is CurDir || b is ParentDir || b is Normal) ==> path::component_order()(
            a@,
            b@,
        ),
        a is CurDir && (b is ParentDir || b is Normal) ==> path::component_order()(a@, b@),
        a is ParentDir && b is Normal ==> path::component_order()(a@, b@),
{
}

/// The lesser of two bytes.
pub open spec fn lesser() -> spec_fn(u8, u8) -> bool {
    |x: u8, y: u8| x < y
}

/// Names are ordered by the first byte in which they differ; a proper beginning of a name stands
/// before it.
pub proof fn bytes_order_names(a: Vec<u8>, b: Vec<u8>)
    ensures
        path::component_order()(PathComponent::Normal(a)@, PathComponent::Normal(b)@) <==> exists|
            n: int,
        |
            falls_behind_at(a@, b@, lesser(), n),
{
    assert(path::byte_order() =~= lesser());
    lemma_first_difference_decides(a@, b@, lesser());
}

} // verus!
