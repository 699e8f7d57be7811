//! Paths as plain values: their components decide identity and order, their texts are shown.
use crate::lex;
use crate::seqs;
use crate::text;
use vstd::prelude::*;

verus! {

/// The prefix of a Windows path, as it parses: what it names, in the platform's own bytes.
/// A server comes with its share; neither holds a zero byte.
pub enum PathPrefix {
    Verbatim(Vec<u8>),
    VerbatimUnc(Vec<u8>, Vec<u8>),
    VerbatimDisk(u8),
    DeviceNs(Vec<u8>),
    Unc(Vec<u8>, Vec<u8>),
    Disk(u8),
}

/// The letter of a drive in upper case.
pub open spec fn drive_letter(letter: u8) -> u8 {
    if 0x61 <= letter <= 0x7a {
        (letter - 0x20) as u8
    } else {
        letter
    }
}

impl PathPrefix {
    /// The bytes that decide equality and order of prefixes: the kind, then what it names. How
    /// the prefix was spelled, with which separators and in which case of the drive, is gone.
    pub open spec fn key(&self) -> Seq<u8> {
        match self {
            PathPrefix::Verbatim(name) => seq![0u8] + name@,
            PathPrefix::VerbatimUnc(server, share) => seq![1u8] + server@ + seq![0u8] + share@,
            PathPrefix::VerbatimDisk(letter) => seq![2u8, drive_letter(*letter)],
            PathPrefix::DeviceNs(name) => seq![3u8] + name@,
            PathPrefix::Unc(server, share) => seq![4u8] + server@ + seq![0u8] + share@,
            PathPrefix::Disk(letter) => seq![5u8, drive_letter(*letter)],
        }
    }

    fn to_key(&self) -> (r: Vec<u8>)
        ensures
            r@ == self.key(),
    {
        let mut r: Vec<u8> = Vec::new();
        match self {
            PathPrefix::Verbatim(name) => {
                r.push(0);
                push_bytes(&mut r, name);
            },
            PathPrefix::VerbatimUnc(server, share) => {
                r.push(1);
                push_bytes(&mut r, server);
                r.push(0);
                push_bytes(&mut r, share);
            },
            PathPrefix::VerbatimDisk(letter) => {
                r.push(2);
                r.push(upper_drive_letter(*letter));
            },
            PathPrefix::DeviceNs(name) => {
                r.push(3);
                push_bytes(&mut r, name);
            },
            PathPrefix::Unc(server, share) => {
                r.push(4);
                push_bytes(&mut r, server);
                r.push(0);
                push_bytes(&mut r, share);
            },
            PathPrefix::Disk(letter) => {
                r.push(5);
                r.push(upper_drive_letter(*letter));
            },
        }
        assert(r@ =~= self.key());
        r
    }
}

/// Prefixes of two servers that decide equality alike name the same server and the same share.
pub proof fn shares_are_told_apart(
    server: Seq<u8>,
    share: Seq<u8>,
    other_server: Seq<u8>,
    other_share: Seq<u8>,
    kind: u8,
)
    requires
        !server.contains(0),
        !other_server.contains(0),
        seq![kind] + server + seq![0u8] + share == seq![kind] + other_server + seq![0u8]
            + other_share,
    ensures
        server == other_server,
        share == other_share,
{
    let a = seq![kind] + server + seq![0u8] + share;
    let b = seq![kind] + other_server + seq![0u8] + other_share;
    let n: int = server.len() as int;
    let m: int = other_server.len() as int;
    assert(a[n + 1] == 0 && b[m + 1] == 0);
    if n < m {
        assert(b[n + 1] == other_server[n]);
    }
    if m < n {
        assert(a[m + 1] == server[m]);
    }
    assert(server =~= a.subrange(1, n + 1));
    assert(other_server =~= b.subrange(1, n + 1));
    assert(share =~= a.skip(n + 2));
    assert(other_share =~= b.skip(n + 2));
}

fn upper_drive_letter(letter: u8) -> (r: u8)
    ensures
        r == drive_letter(letter),
{
    if letter >= 0x61 && letter <= 0x7a {
        letter - 0x20
    } else {
        letter
    }
}

fn push_bytes(to: &mut Vec<u8>, from: &Vec<u8>)
    ensures
        final(to)@ == old(to)@ + from@,
{
    let ghost before = to@;
    let mut i: usize = 0;
    assert(to@ =~= before + from@.take(0));
    while i < from.len()
        invariant
            i <= from@.len(),
            to@ == before + from@.take(i as int),
        decreases from@.len() - i,
    {
        to.push(from[i]);
        i = i + 1;
        assert(to@ =~= before + from@.take(i as int));
    }
    assert(from@.take(i as int) =~= from@);
}

/// A path component, as the platform parses it. Names are the platform's own bytes.
pub enum PathComponent {
    Prefix(PathPrefix),
    RootDir,
    CurDir,
    ParentDir,
    Normal(Vec<u8>),
}

pub struct ComponentView {
    pub rank: int,
    pub name: Seq<u8>,
}

impl View for PathComponent {
    type V = ComponentView;

    open spec fn view(&self) -> ComponentView {
        match self {
            PathComponent::Prefix(prefix) => ComponentView { rank: 0, name: prefix.key() },
            PathComponent::RootDir => ComponentView { rank: 1, name: Seq::empty() },
            PathComponent::CurDir => ComponentView { rank: 2, name: Seq::empty() },
            PathComponent::ParentDir => ComponentView { rank: 3, name: Seq::empty() },
            PathComponent::Normal(name) => ComponentView { rank: 4, name: name@ },
        }
    }
}

/// A path with everything that is read of it.
///
/// - `raw`: the bytes of the path as the platform holds it;
/// - `components`: its parsed components, which decide equality and order;
/// - `text`: the path as text;
/// - `compact`: the text with the home directory abbreviated;
/// - `compact_file_name`: the last component of the abbreviated path, where it names something.
pub struct ProjectPath {
    pub raw: Vec<u8>,
    pub components: Vec<PathComponent>,
    pub text: String,
    pub compact: String,
    pub compact_file_name: Option<String>,
}

pub struct PathView {
    pub raw: Seq<u8>,
    pub components: Seq<ComponentView>,
    pub text: Seq<char>,
    pub compact: Seq<char>,
    pub compact_file_name: Option<Seq<char>>,
}

/// The text in `s`, where there is one.
pub open spec fn text_option(s: Option<String>) -> Option<Seq<char>> {
    match s {
        Some(t) => Some(t@),
        None => None,
    }
}

impl PathView {
    /// The name was read off the abbreviated path: it stands in its text.
    pub open spec fn named(&self) -> bool {
        self.compact_file_name matches Some(name) ==> text::occurs(self.compact, name)
    }
}

impl View for ProjectPath {
    type V = PathView;

    open spec fn view(&self) -> PathView {
        PathView {
            raw: self.raw@,
            components: seqs::views(self.components@),
            text: self.text@,
            compact: self.compact@,
            compact_file_name: text_option(self.compact_file_name),
        }
    }
}

pub open spec fn byte_order() -> spec_fn(u8, u8) -> bool {
    |a: u8, b: u8| a < b
}

/// Components are ordered by kind, then by name.
pub open spec fn component_order() -> spec_fn(ComponentView, ComponentView) -> bool {
    |a: ComponentView, b: ComponentView|
        a.rank < b.rank || (a.rank == b.rank && lex::lex_before(a.name, b.name, byte_order()))
}

/// Paths are ordered component by component.
pub open spec fn path_before(a: Seq<ComponentView>, b: Seq<ComponentView>) -> bool {
    lex::lex_before(a, b, component_order())
}

pub proof fn lemma_component_order()
    ensures
        lex::is_strict_order(component_order()),
{
    let bytes = byte_order();
    assert(lex::is_strict_order(bytes)) by {
        assert forall|a: u8, b: u8| a == b || #[trigger] bytes(a, b) || bytes(b, a) by {}
        assert forall|a: u8, b: u8, c: u8| #[trigger] bytes(a, b) && #[trigger] bytes(
            b,
            c,
        ) implies bytes(a, c) by {}
    }
    lex::lemma_lex_strict_order(bytes);
    let names = |a: Seq<u8>, b: Seq<u8>| lex::lex_before(a, b, bytes);
    let order = component_order();
    assert forall|a: ComponentView| !(#[trigger] order(a, a)) by {
        assert(!names(a.name, a.name));
    }
    assert forall|a: ComponentView, b: ComponentView, c: ComponentView| #[trigger]
        order(a, b) && #[trigger] order(b, c) implies order(a, c) by {
        if a.rank == b.rank && b.rank == c.rank {
            assert(names(a.name, b.name) && names(b.name, c.name));
            assert(names(a.name, c.name));
        }
    }
    assert forall|a: ComponentView, b: ComponentView| a == b || #[trigger] order(a, b) || order(
        b,
        a,
    ) by {
        assert(a.name == b.name || names(a.name, b.name) || names(b.name, a.name));
    }
}

/// Paths are totally ordered: no path stands before itself, the order may be chained, and of two
/// different paths one stands before the other.
pub proof fn lemma_path_order()
    ensures
        forall|a: Seq<ComponentView>| !(#[trigger] path_before(a, a)),
        forall|a: Seq<ComponentView>, b: Seq<ComponentView>, c: Seq<ComponentView>| #[trigger]
            path_before(a, b) && #[trigger] path_before(b, c) ==> path_before(a, c),
        forall|a: Seq<ComponentView>, b: Seq<ComponentView>|
            a == b || #[trigger] path_before(a, b) || path_before(b, a),
{
    lemma_component_order();
    lex::lemma_lex_strict_order(component_order());
    let f = |a: Seq<ComponentView>, b: Seq<ComponentView>| lex::lex_before(a, b, component_order());
    assert forall|a: Seq<ComponentView>| !(#[trigger] path_before(a, a)) by {
        assert(!f(a, a));
    }
    assert forall|a: Seq<ComponentView>, b: Seq<ComponentView>, c: Seq<ComponentView>| #[trigger]
        path_before(a, b) && #[trigger] path_before(b, c) implies path_before(a, c) by {
        assert(f(a, b) && f(b, c));
        assert(f(a, c));
    }
    assert forall|a: Seq<ComponentView>, b: Seq<ComponentView>|
        a == b || #[trigger] path_before(a, b) || path_before(b, a) by {
        assert(a == b || f(a, b) || f(b, a));
    }
}

/// Whether the bytes of `a` stand before, at or behind those of `b`: -1, 0 or 1.
fn order_of_bytes(a: &Vec<u8>, b: &Vec<u8>) -> (r: i8)
    ensures
        r == (if a@ == b@ {
            0int
        } else if lex::lex_before(a@, b@, byte_order()) {
            -1
        } else {
            1
        }),
{
    let mut i: usize = 0;
    while i < a.len() && i < b.len() && a[i] == b[i]
        invariant
            i <= a@.len(),
            i <= b@.len(),
            forall|j: int| 0 <= j < i ==> #[trigger] a@[j] == b@[j],
        decreases a@.len() - i,
    {
        i = i + 1;
    }
    proof {
        lex::lemma_lex_skip(a@, b@, byte_order(), i as int);
        if i < a@.len() {
            assert(a@.skip(i as int)[0] == a@[i as int]);
        }
        if i < b@.len() {
            assert(b@.skip(i as int)[0] == b@[i as int]);
        }
        if i == a@.len() && i == b@.len() {
            assert(a@ =~= b@);
        }
    }
    if i == b.len() {
        if i == a.len() {
            0
        } else {
            1
        }
    } else if i == a.len() {
        -1
    } else if a[i] < b[i] {
        -1
    } else {
        1
    }
}

impl PathComponent {
    fn rank(&self) -> (r: u8)
        ensures
            r == self@.rank,
    {
        match self {
            PathComponent::Prefix(_) => 0,
            PathComponent::RootDir => 1,
            PathComponent::CurDir => 2,
            PathComponent::ParentDir => 3,
            PathComponent::Normal(_) => 4,
        }
    }

    /// -1, 0 or 1, as `self` stands before, at or behind `other`.
    fn order_against(&self, other: &PathComponent) -> (r: i8)
        ensures
            r == (if self@ == other@ {
                0int
            } else if component_order()(self@, other@) {
                -1
            } else {
                1
            }),
    {
        let a: u8 = self.rank();
        let b: u8 = other.rank();
        if a < b {
            return -1;
        }
        if b < a {
            return 1;
        }
        match (self, other) {
            (PathComponent::Prefix(x), PathComponent::Prefix(y)) => order_of_bytes(
                &x.to_key(),
                &y.to_key(),
            ),
            (PathComponent::Normal(x), PathComponent::Normal(y)) => order_of_bytes(x, y),
            _ => 0,
        }
    }
}

fn clone_bytes(bytes: &Vec<u8>) -> (r: Vec<u8>)
    ensures
        r@ == bytes@,
{
    let r: Vec<u8> = bytes.clone();
    assert(r@ =~= bytes@);
    r
}

impl Clone for PathPrefix {
    fn clone(&self) -> (r: Self)
        ensures
            r.key() == self.key(),
    {
        match self {
            PathPrefix::Verbatim(name) => PathPrefix::Verbatim(clone_bytes(name)),
            PathPrefix::VerbatimUnc(server, share) => PathPrefix::VerbatimUnc(
                clone_bytes(server),
                clone_bytes(share),
            ),
            PathPrefix::VerbatimDisk(letter) => PathPrefix::VerbatimDisk(*letter),
            PathPrefix::DeviceNs(name) => PathPrefix::DeviceNs(clone_bytes(name)),
            PathPrefix::Unc(server, share) => PathPrefix::Unc(
                clone_bytes(server),
                clone_bytes(share),
            ),
            PathPrefix::Disk(letter) => PathPrefix::Disk(*letter),
        }
    }
}

impl Clone for PathComponent {
    fn clone(&self) -> (r: Self)
        ensures
            r@ == self@,
    {
        match self {
            PathComponent::Prefix(prefix) => PathComponent::Prefix(prefix.clone()),
            PathComponent::RootDir => PathComponent::RootDir,
            PathComponent::CurDir => PathComponent::CurDir,
            PathComponent::ParentDir => PathComponent::ParentDir,
            PathComponent::Normal(name) => PathComponent::Normal(clone_bytes(name)),
        }
    }
}

impl Clone for ProjectPath {
    fn clone(&self) -> (r: Self)
        ensures
            r@ == self@,
    {
        let raw: Vec<u8> = clone_bytes(&self.raw);
        let components: Vec<PathComponent> = self.components.clone();
        assert(seqs::views(components@) =~= seqs::views(self.components@));
        ProjectPath {
            raw,
            components,
            text: self.text.clone(),
            compact: self.compact.clone(),
            compact_file_name: match &self.compact_file_name {
                Some(name) => Some(name.clone()),
                None => None,
            },
        }
    }
}

impl ProjectPath {
    /// -1, 0 or 1, as `self` stands before, at or behind `other`.
    pub fn order_against(&self, other: &ProjectPath) -> (r: i8)
        ensures
            r == (if self@.components == other@.components {
                0int
            } else if path_before(self@.components, other@.components) {
                -1
            } else {
                1
            }),
    {
        let a: &Vec<PathComponent> = &self.components;
        let b: &Vec<PathComponent> = &other.components;
        let ghost va = self@.components;
        let ghost vb = other@.components;
        let mut i: usize = 0;
        while i < a.len() && i < b.len()
            invariant
                i <= a@.len(),
                i <= b@.len(),
                va == seqs::views(a@),
                vb == seqs::views(b@),
                va == self@.components,
                vb == other@.components,
                forall|j: int| 0 <= j < i ==> #[trigger] va[j] == vb[j],
            decreases a@.len() - i,
        {
            let c: i8 = a[i].order_against(&b[i]);
            if c != 0 {
                proof {
                    lex::lemma_lex_skip(va, vb, component_order(), i as int);
                    assert(va.skip(i as int)[0] == va[i as int]);
                    assert(vb.skip(i as int)[0] == vb[i as int]);
                }
                return c;
            }
            i = i + 1;
        }
        proof {
            lex::lemma_lex_skip(va, vb, component_order(), i as int);
            if i == va.len() && i == vb.len() {
                assert(va =~= vb);
            }
        }
        if i < b.len() {
            -1
        } else if i < a.len() {
            1
        } else {
            0
        }
    }

    /// Whether both are the same path.
    pub fn same_path(&self, other: &ProjectPath) -> (r: bool)
        ensures
            r == (self@.components == other@.components),
    {
        self.order_against(other) == 0
    }

    /// Whether the components of `base` are the first components of this path.
    pub fn starts_with(&self, base: &ProjectPath) -> (r: bool)
        ensures
            r == base@.components.is_prefix_of(self@.components),
    {
        let ghost va = self@.components;
        let ghost vb = base@.components;
        if self.components.len() < base.components.len() {
            return false;
        }
        let mut i: usize = 0;
        while i < base.components.len()
            invariant
                i <= base.components@.len() <= self.components@.len(),
                va == seqs::views(self.components@),
                vb == seqs::views(base.components@),
                forall|j: int| 0 <= j < i ==> #[trigger] va[j] == vb[j],
            decreases base.components@.len() - i,
        {
            if self.components[i].order_against(&base.components[i]) != 0 {
                assert(va.subrange(0, vb.len() as int)[i as int] != vb[i as int]);
                return false;
            }
            i = i + 1;
        }
        assert(vb =~= va.subrange(0, vb.len() as int));
        true
    }
}

/// A list of paths in canonical order, with the order in which they are shown.
pub struct PathList {
    pub paths: Vec<ProjectPath>,
    pub ordered_paths: Vec<ProjectPath>,
}

pub struct PathListView {
    pub paths: Seq<PathView>,
    pub ordered_paths: Seq<PathView>,
}

impl View for PathList {
    type V = PathListView;

    open spec fn view(&self) -> PathListView {
        PathListView {
            paths: seqs::views(self.paths@),
            ordered_paths: seqs::views(self.ordered_paths@),
        }
    }
}

impl PathListView {
    /// What decides whether two lists are the same: the paths in canonical order.
    pub open spec fn identity(self) -> Seq<Seq<ComponentView>> {
        Seq::new(self.paths.len(), |i: int| self.paths[i].components)
    }
}

impl Clone for PathList {
    fn clone(&self) -> (r: Self)
        ensures
            r@ == self@,
    {
        let paths: Vec<ProjectPath> = self.paths.clone();
        let ordered_paths: Vec<ProjectPath> = self.ordered_paths.clone();
        assert(seqs::views(paths@) =~= seqs::views(self.paths@));
        assert(seqs::views(ordered_paths@) =~= seqs::views(self.ordered_paths@));
        PathList { paths, ordered_paths }
    }
}

impl PathList {
    /// Whether both lists hold the same paths; the order of display does not count.
    pub fn same_paths(&self, other: &PathList) -> (r: bool)
        ensures
            r == (self@.identity() == other@.identity()),
    {
        let ghost a = self@.identity();
        let ghost b = other@.identity();
        if self.paths.len() != other.paths.len() {
            assert(a.len() != b.len());
            return false;
        }
        let mut i: usize = 0;
        while i < self.paths.len()
            invariant
                i <= self.paths@.len(),
                self.paths@.len() == other.paths@.len(),
                a == self@.identity(),
                b == other@.identity(),
                forall|j: int| 0 <= j < i ==> #[trigger] a[j] == b[j],
            decreases self.paths@.len() - i,
        {
            if !self.paths[i].same_path(&other.paths[i]) {
                assert(a[i as int] != b[i as int]);
                return false;
            }
            i = i + 1;
        }
        assert(a =~= b);
        true
    }
}

/// Every path stands before every later one.
pub open spec fn strictly_sorted(s: Seq<PathView>) -> bool {
    forall|i: int, j: int|
        0 <= i < j < s.len() ==> path_before(
            (#[trigger] s[i]).components,
            (#[trigger] s[j]).components,
        )
}

/// Some path in `s` has the components `key`.
pub open spec fn holds_path(s: Seq<PathView>, key: Seq<ComponentView>) -> bool {
    exists|i: int| 0 <= i < s.len() && (#[trigger] s[i]).components == key
}

/// Puts a copy of `path` where it belongs in `sorted`, unless the path is there already.
pub fn insert_distinct(sorted: &mut Vec<ProjectPath>, path: &ProjectPath)
    requires
        strictly_sorted(seqs::views(old(sorted)@)),
    ensures
        strictly_sorted(seqs::views(final(sorted)@)),
        forall|key: Seq<ComponentView>| #[trigger]
            holds_path(seqs::views(final(sorted)@), key) <==> holds_path(
                seqs::views(old(sorted)@),
                key,
            ) || key == path@.components,
        forall|i: int|
            0 <= i < final(sorted)@.len() ==> (#[trigger] final(sorted)@[i])@ == path@
                || seqs::views(old(sorted)@).contains(final(sorted)@[i]@),
        if holds_path(seqs::views(old(sorted)@), path@.components) {
            final(sorted)@ == old(sorted)@
        } else {
            exists|i: int|
                0 <= i <= old(sorted)@.len() && seqs::views(final(sorted)@)
                    == #[trigger] seqs::views(old(sorted)@).insert(i, path@)
        },
{
    let ghost before = seqs::views(sorted@);
    let mut i: usize = 0;
    proof {
        lemma_path_order();
    }
    while i < sorted.len()
        invariant
            i <= sorted@.len(),
            *sorted == *old(sorted),
            before == seqs::views(sorted@),
            strictly_sorted(before),
            forall|j: int|
                0 <= j < i ==> path_before((#[trigger] before[j]).components, path@.components),
        ensures
            i < sorted@.len() ==> path_before(path@.components, before[i as int].components),
        decreases sorted@.len() - i,
    {
        let c: i8 = sorted[i].order_against(path);
        if c == 0 {
            proof {
                assert(before[i as int].components == path@.components);
                assert forall|k: int| 0 <= k < sorted@.len() implies before.contains(
                    (#[trigger] sorted@[k])@,
                ) by {
                    assert(before[k] == sorted@[k]@);
                }
            }
            return;
        }
        if c > 0 {
            proof {
                lemma_path_order();
                assert(before[i as int] == sorted@[i as int]@);
            }
            break;
        }
        assert(before[i as int] == sorted@[i as int]@);
        i = i + 1;
    }
    sorted.insert(i, path.clone());
    proof {
        lemma_path_order();
        let after = seqs::views(sorted@);
        assert(after =~= before.insert(i as int, path@));
        assert forall|a: int, b: int| 0 <= a < b < after.len() implies path_before(
            (#[trigger] after[a]).components,
            (#[trigger] after[b]).components,
        ) by {
            if b == i {
                assert(after[a] == before[a]);
            } else if a == i {
                assert(after[b] == before[b - 1]);
                if b - 1 > i {
                    assert(path_before(before[i as int].components, before[b - 1].components));
                }
            } else {
                let x = if a < i { a } else { a - 1 };
                let y = if b < i { b } else { b - 1 };
                assert(after[a] == before[x] && after[b] == before[y]);
            }
        }
        assert forall|key: Seq<ComponentView>| #[trigger] holds_path(after, key) <==> holds_path(
            before,
            key,
        ) || key == path@.components by {
            if holds_path(before, key) {
                let k = choose|k: int| 0 <= k < before.len() && (#[trigger] before[k]).components
                    == key;
                let m = if k < i { k } else { k + 1 };
                assert(after[m] == before[k]);
            }
            if key == path@.components {
                assert(after[i as int].components == key);
            }
            if holds_path(after, key) {
                let m = choose|m: int| 0 <= m < after.len() && (#[trigger] after[m]).components
                    == key;
                if m != i {
                    let k = if m < i { m } else { m - 1 };
                    assert(after[m] == before[k]);
                }
            }
        }
        assert forall|k: int| 0 <= k < sorted@.len() implies (#[trigger] sorted@[k])@ == path@
            || before.contains(sorted@[k]@) by {
            assert(after[k] == sorted@[k]@);
            if k != i {
                let m = if k < i { k } else { k - 1 };
                assert(after[k] == before[m]);
            }
        }
    }
}

/// Which of the paths in `sorted` is `path`.
pub fn find_path(sorted: &Vec<ProjectPath>, path: &ProjectPath) -> (r: Option<usize>)
    ensures
        r == seqs::first_index(
            seqs::views(sorted@),
            |p: PathView| p.components == path@.components,
        ),
{
    let ghost s = seqs::views(sorted@);
    let ghost same = |p: PathView| p.components == path@.components;
    let mut i: usize = 0;
    while i < sorted.len()
        invariant
            i <= sorted@.len(),
            s == seqs::views(sorted@),
            same == (|p: PathView| p.components == path@.components),
            forall|j: int| 0 <= j < i ==> !same(#[trigger] s[j]),
        decreases sorted@.len() - i,
    {
        if sorted[i].same_path(path) {
            proof {
                assert(seqs::is_first(s, same, i as int));
                seqs::lemma_first_index_is(s, same, i as int);
            }
            return Some(i);
        }
        i = i + 1;
    }
    proof {
        seqs::lemma_first_index_none(s, same);
    }
    None
}

/// A copy of the paths.
pub fn clone_paths(paths: &Vec<ProjectPath>) -> (r: Vec<ProjectPath>)
    ensures
        seqs::views(r@) == seqs::views(paths@),
{
    let r: Vec<ProjectPath> = paths.clone();
    assert(seqs::views(r@) =~= seqs::views(paths@));
    r
}

} // verus!
