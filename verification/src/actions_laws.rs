//! What holds of the application's actions.
use crate::actions;
use crate::actions::{OpenInWslStep, PickedPath, WslConnection};
use crate::seqs;
use vstd::prelude::*;

verus! {

/// The paths under which a distribution reaches what was picked: one for each picked path that
/// has one, in order.
pub proof fn reachable_paths_keep_their_order(picked: Seq<PickedPath>) -> (at: Seq<int>)
    ensures
        at.len() == actions::reachable(picked).len(),
        forall|k: int|
            0 <= k < at.len() ==> 0 <= #[trigger] at[k] < picked.len()
                && picked[at[k]].local_to_wsl is Some && actions::reachable(picked)[k] == (
            picked[at[k]].local_to_wsl->0)@,
        forall|k: int, l: int| 0 <= k < l < at.len() ==> #[trigger] at[k] < #[trigger] at[l],
        forall|i: int|
            0 <= i < picked.len() && (#[trigger] picked[i]).local_to_wsl is Some ==> at.contains(i),
    decreases picked.len(),
{
    if picked.len() == 0 {
        Seq::empty()
    } else {
        let rest = picked.drop_last();
        let before = reachable_paths_keep_their_order(rest);
        let n: int = rest.len() as int;
        let all = actions::reachable(picked);
        let few = actions::reachable(rest);
        if picked.last().local_to_wsl is Some {
            let at = before.push(n);
            assert forall|k: int| 0 <= k < at.len() implies 0 <= #[trigger] at[k] < picked.len()
                && picked[at[k]].local_to_wsl is Some && all[k] == (
            picked[at[k]].local_to_wsl->0)@ by {
                if k < before.len() {
                    assert(at[k] == before[k]);
                    assert(all[k] == few[k]);
                    assert(rest[at[k]] == picked[at[k]]);
                }
            }
            assert forall|k: int, l: int| 0 <= k < l < at.len() implies #[trigger] at[k]
                < #[trigger] at[l] by {
                assert(at[k] == before[k]);
                if l < before.len() {
                    assert(at[l] == before[l]);
                }
            }
            assert forall|i: int|
                0 <= i < picked.len() && (#[trigger] picked[i]).local_to_wsl
                    is Some implies at.contains(i) by {
                if i < n {
                    assert(rest[i] == picked[i]);
                    let k = choose|k: int| 0 <= k < before.len() && before[k] == i;
                    assert(at[k] == i);
                } else {
                    assert(at[at.len() - 1] == i);
                }
            }
            at
        } else {
            assert forall|k: int| 0 <= k < before.len() implies 0 <= #[trigger] before[k]
                < picked.len() && picked[before[k]].local_to_wsl is Some && all[k] == (
            picked[before[k]].local_to_wsl->0)@ by {
                assert(rest[before[k]] == picked[before[k]]);
            }
            assert forall|i: int|
                0 <= i < picked.len() && (#[trigger] picked[i]).local_to_wsl
                    is Some implies before.contains(i) by {
                assert(rest[i] == picked[i]);
            }
            before
        }
    }
}

/// The first picked path that is inside a distribution is opened there, and nothing else is; the
/// window is reused where it can be and no new one is wanted.
pub proof fn the_first_path_inside_a_distribution_is_opened(
    picked: Vec<PickedPath>,
    create_new_window: bool,
    in_multi_workspace: bool,
    r: OpenInWslStep,
    i: int,
)
    requires
        actions::opens_in_wsl(Some(picked), create_new_window, in_multi_workspace, r),
        0 <= i < picked@.len(),
        picked@[i].wsl is Some,
        forall|j: int| 0 <= j < i ==> (#[trigger] picked@[j]).wsl is None,
    ensures
        r is OpenRemote,
        r->distro@ == picked@[i].wsl->0.distro@,
        r->path@ == picked@[i].wsl->0.path@,
        r->reuse_window <==> in_multi_workspace && !create_new_window,
{
    let p = actions::inside_wsl();
    assert(picked@.len() == picked.len());
    assert(seqs::is_first(picked@, p, i));
    seqs::lemma_first_index_is(picked@, p, i);
}

/// Where no picked path is inside a distribution, a distribution is asked for, unless none reaches
/// any of the paths: then that is said.
pub proof fn a_distribution_is_asked_for(
    picked: Vec<PickedPath>,
    create_new_window: bool,
    in_multi_workspace: bool,
    r: OpenInWslStep,
)
    requires
        actions::opens_in_wsl(Some(picked), create_new_window, in_multi_workspace, r),
        forall|j: int| 0 <= j < picked@.len() ==> (#[trigger] picked@[j]).wsl is None,
    ensures
        r is InvalidPath <==> forall|j: int|
            0 <= j < picked@.len() ==> (#[trigger] picked@[j]).local_to_wsl is None,
        !(r is InvalidPath) ==> r is PickDistro,
        r matches OpenInWslStep::InvalidPath { title, message } ==> title@ == "Invalid path"@
            && message@
            == "Invalid path specified when trying to open a folder inside WSL.\n\nPlease note that Zed currently does not support opening network share folders inside wsl.\n"@,
        r matches OpenInWslStep::PickDistro { paths, create_new_window: wanted } ==> {
            &&& seqs::views(paths@) == actions::reachable(picked@)
            &&& wanted == create_new_window
        },
{
    let p = actions::inside_wsl();
    seqs::lemma_first_index_none(picked@, p);
    let at = reachable_paths_keep_their_order(picked@);
    if at.len() > 0 {
        assert(picked@[at[0]].local_to_wsl is Some);
    } else {
        assert forall|j: int| 0 <= j < picked@.len() implies (#[trigger] picked@[j]).local_to_wsl
            is None by {
            if picked@[j].local_to_wsl is Some {
                assert(at.contains(j));
            }
        }
    }
}

/// Nothing picked, nothing opened.
pub proof fn nothing_is_opened_without_a_pick(
    create_new_window: bool,
    in_multi_workspace: bool,
    r: OpenInWslStep,
)
    requires
        actions::opens_in_wsl(None, create_new_window, in_multi_workspace, r),
    ensures
        r is Nothing,
{
}

/// Both name the same distribution, and the same user or none.
pub open spec fn names_the_same(a: WslConnection, b: WslConnection) -> bool {
    &&& a.distro_name@ == b.distro_name@
    &&& a.user is Some == b.user is Some
    &&& a.user is Some ==> a.user->0@ == b.user->0@
}

/// A distribution is added behind the others exactly where none of them has its name and its
/// user; the others stay as they are.
pub proof fn distributions_are_added_once(
    connections: Seq<WslConnection>,
    connection: WslConnection,
)
    ensures
        actions::known(connections, &connection) <==> exists|i: int|
            0 <= i < connections.len() && names_the_same(#[trigger] connections[i], connection),
        ({
            let after = actions::with_distro(connections, connection);
            if exists|i: int|
                0 <= i < connections.len() && names_the_same(
                    #[trigger] connections[i],
                    connection,
                ) {
                after == connections
            } else {
                &&& after.len() == connections.len() + 1
                &&& after.last() == connection
                &&& after.drop_last() == connections
            }
        }),
{
    assert forall|i: int| 0 <= i < connections.len() implies names_the_same(
        #[trigger] connections[i],
        connection,
    ) == connections[i].same(&connection) by {}
    if actions::known(connections, &connection) {
        let i = choose|i: int|
            0 <= i < connections.len() && (#[trigger] connections[i]).same(&connection);
        assert(names_the_same(connections[i], connection));
    } else {
        assert(actions::with_distro(connections, connection).drop_last() =~= connections);
    }
}

} // verus!
