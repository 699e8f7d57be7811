//! What the application's actions do: opening the picker, remote hosts, dev containers and
//! folders inside a Windows subsystem for Linux.
use crate::path;
use crate::picker;
use crate::picker::DefaultOpenBehavior;
use crate::seqs;
use vstd::prelude::*;

verus! {

/// What opening the recent projects does. `K` identifies a project group.
pub enum OpenRecentStep<K> {
    /// Open the picker with these project groups.
    Open(Vec<K>),
    /// The picker is open: select its next row.
    CycleSelection,
}

/// Opening the recent projects opens the picker, or moves on in the open one. `window_groups` are
/// the project groups of the active window, where it can hold several workspaces.
pub fn open_recent<K>(picker_open: bool, window_groups: Option<Vec<K>>) -> (r: OpenRecentStep<K>)
    ensures
        match r {
            OpenRecentStep::Open(groups) => !picker_open && (match window_groups {
                Some(all) => groups == all,
                None => groups@.len() == 0,
            }),
            OpenRecentStep::CycleSelection => picker_open,
        },
{
    if picker_open {
        return OpenRecentStep::CycleSelection;
    }
    match window_groups {
        Some(all) => OpenRecentStep::Open(all),
        None => OpenRecentStep::Open(Vec::new()),
    }
}

/// What opening a remote project does.
#[derive(Clone, Copy, Debug, PartialEq, Eq, Structural)]
pub enum OpenRemoteStep {
    /// Somebody else handles connections that exist.
    Propagate,
    /// Show the remote servers.
    ShowServers { create_new_window: bool },
}

pub fn open_remote(
    from_existing_connection: bool,
    create_new_window: Option<bool>,
    behavior: DefaultOpenBehavior,
) -> (r: OpenRemoteStep)
    ensures
        r == (if from_existing_connection {
            OpenRemoteStep::Propagate
        } else {
            OpenRemoteStep::ShowServers {
                create_new_window: picker::new_window(create_new_window, behavior),
            }
        }),
{
    if from_existing_connection {
        return OpenRemoteStep::Propagate;
    }
    OpenRemoteStep::ShowServers {
        create_new_window: picker::wants_new_window(create_new_window, behavior),
    }
}

/// What opening a dev container does.
#[derive(Debug, PartialEq, Eq)]
pub enum OpenDevContainerStep {
    /// Say that it cannot be done.
    Refuse(&'static str),
    /// Show the dev containers of the project.
    ShowConfigs,
}

/// A dev container is opened from a local project only.
pub fn open_dev_container(project_is_local: bool) -> (r: OpenDevContainerStep)
    ensures
        match r {
            OpenDevContainerStep::Refuse(message) => !project_is_local && message@
                == "Cannot open Dev Container from remote project"@,
            OpenDevContainerStep::ShowConfigs => project_is_local,
        },
{
    if !project_is_local {
        return OpenDevContainerStep::Refuse("Cannot open Dev Container from remote project");
    }
    OpenDevContainerStep::ShowConfigs
}

/// Whether a remote project is opened in the window that asks for it.
pub fn reuses_requesting_window(create_new_window: bool, in_multi_workspace: bool) -> (r: bool)
    ensures
        r == (!create_new_window && in_multi_workspace),
{
    match create_new_window {
        false => in_multi_workspace,
        true => false,
    }
}

/// A distribution, and the path inside it.
#[derive(Debug, PartialEq, Eq)]
pub struct WslPath {
    pub distro: String,
    pub path: String,
}

/// A path that the user picked: as a path inside a distribution where it is one, and as the path
/// under which a distribution reaches it where one does.
#[derive(Debug, PartialEq, Eq)]
pub struct PickedPath {
    pub wsl: Option<WslPath>,
    pub local_to_wsl: Option<String>,
}

/// What opening a folder inside a distribution does.
#[derive(Debug, PartialEq, Eq)]
pub enum OpenInWslStep {
    Nothing,
    /// Open the path in its distribution.
    OpenRemote { distro: String, path: String, reuse_window: bool },
    /// Say that the path cannot be opened.
    InvalidPath { title: &'static str, message: &'static str },
    /// Ask which distribution to open the paths in.
    PickDistro { paths: Vec<String>, create_new_window: bool },
}

/// The picked path is inside a distribution.
pub open spec fn inside_wsl() -> spec_fn(PickedPath) -> bool {
    |p: PickedPath| p.wsl is Some
}

/// The paths under which a distribution reaches the picked paths, where one does.
pub open spec fn reachable(picked: Seq<PickedPath>) -> Seq<Seq<char>>
    decreases picked.len(),
{
    if picked.len() == 0 {
        Seq::empty()
    } else {
        let rest = reachable(picked.drop_last());
        match picked.last().local_to_wsl {
            Some(path) => rest.push(path@),
            None => rest,
        }
    }
}

/// What is said of a path that no distribution reaches.
pub open spec fn invalid_wsl_path_text() -> Seq<char> {
    "Invalid path specified when trying to open a folder inside WSL.\n\nPlease note that Zed currently does not support opening network share folders inside wsl.\n"@
}

/// This opens what the user picked.
pub open spec fn opens_in_wsl(
    picked: Option<Vec<PickedPath>>,
    create_new_window: bool,
    in_multi_workspace: bool,
    r: OpenInWslStep,
) -> bool {
    match picked {
        None => r is Nothing,
        Some(all) => match seqs::first_index(all@, inside_wsl()) {
            Some(i) => r matches OpenInWslStep::OpenRemote { distro, path, reuse_window }
                && distro@ == (all@[i as int].wsl->0).distro@ && path@ == (
            all@[i as int].wsl->0).path@ && reuse_window == (!create_new_window
                && in_multi_workspace),
            None => if reachable(all@).len() == 0 {
                r matches OpenInWslStep::InvalidPath { title, message } && title@
                    == "Invalid path"@ && message@ == invalid_wsl_path_text()
            } else {
                r matches OpenInWslStep::PickDistro { paths, create_new_window: wanted }
                    && seqs::views(paths@) == reachable(all@) && wanted == create_new_window
            },
        },
    }
}

/// Opens what the user picked: the first path inside a distribution, or else everything that a
/// distribution reaches.
pub fn open_folder_in_wsl(
    picked: &Option<Vec<PickedPath>>,
    create_new_window: bool,
    in_multi_workspace: bool,
) -> (r: OpenInWslStep)
    ensures
        opens_in_wsl(*picked, create_new_window, in_multi_workspace, r),
{
    let all: &Vec<PickedPath> = match picked {
        Some(all) => all,
        None => {
            return OpenInWslStep::Nothing;
        },
    };
    let mut i: usize = 0;
    while i < all.len()
        invariant
            i <= all@.len(),
            *picked == Some(*all),
            forall|j: int| 0 <= j < i ==> !inside_wsl()(#[trigger] all@[j]),
        decreases all@.len() - i,
    {
        if let Some(found) = &all[i].wsl {
            proof {
                assert(inside_wsl()(all@[i as int]));
                assert(seqs::is_first(all@, inside_wsl(), i as int));
                seqs::lemma_first_index_is(all@, inside_wsl(), i as int);
            }
            return OpenInWslStep::OpenRemote {
                distro: found.distro.clone(),
                path: found.path.clone(),
                reuse_window: reuses_requesting_window(create_new_window, in_multi_workspace),
            };
        }
        i = i + 1;
    }
    proof {
        seqs::lemma_first_index_none(all@, inside_wsl());
    }
    let mut paths: Vec<String> = Vec::new();
    let mut k: usize = 0;
    assert(all@.take(0) =~= Seq::empty());
    assert(seqs::views(paths@) =~= reachable(all@.take(0)));
    while k < all.len()
        invariant
            k <= all@.len(),
            seqs::views(paths@) == reachable(all@.take(k as int)),
        decreases all@.len() - k,
    {
        assert(all@.take(k + 1).drop_last() =~= all@.take(k as int));
        assert(all@.take(k + 1).last() == all@[k as int]);
        if let Some(path) = &all[k].local_to_wsl {
            proof {
                seqs::lemma_views_push(paths@, *path);
            }
            paths.push(path.clone());
        }
        k = k + 1;
    }
    assert(all@.take(k as int) =~= all@);
    assert(seqs::views(paths@).len() == paths@.len());
    if paths.len() == 0 {
        return OpenInWslStep::InvalidPath {
            title: "Invalid path",
            message: "Invalid path specified when trying to open a folder inside WSL.\n\nPlease note that Zed currently does not support opening network share folders inside wsl.\n",
        };
    }
    OpenInWslStep::PickDistro { paths, create_new_window }
}

/// A distribution that is known, and the user to log in as.
#[derive(Debug, PartialEq, Eq)]
pub struct WslConnection {
    pub distro_name: String,
    pub user: Option<String>,
}

impl WslConnection {
    /// Both name the same distribution and the same user.
    pub open spec fn same(&self, other: &WslConnection) -> bool {
        &&& self.distro_name@ == other.distro_name@
        &&& path::text_option(self.user) == path::text_option(other.user)
    }

    fn is_same(&self, other: &WslConnection) -> (r: bool)
        ensures
            r == self.same(other),
    {
        let same_user: bool = match (&self.user, &other.user) {
            (Some(a), Some(b)) => *a == *b,
            (None, None) => true,
            _ => false,
        };
        self.distro_name == other.distro_name && same_user
    }
}

/// The distribution is known.
pub open spec fn known(connections: Seq<WslConnection>, connection: &WslConnection) -> bool {
    exists|i: int| 0 <= i < connections.len() && (#[trigger] connections[i]).same(connection)
}

/// The distributions once this one was added: behind the others, unless it is known.
pub open spec fn with_distro(
    connections: Seq<WslConnection>,
    connection: WslConnection,
) -> Seq<WslConnection> {
    if known(connections, &connection) {
        connections
    } else {
        connections.push(connection)
    }
}

/// Adds a distribution to those in the settings, of which there may be none yet. Says whether it
/// was new.
pub fn add_wsl_distro(
    connections: &mut Option<Vec<WslConnection>>,
    connection: WslConnection,
) -> (added: bool)
    ensures
        ({
            let before = match *old(connections) {
                Some(all) => all@,
                None => Seq::empty(),
            };
            &&& added == !known(before, &connection)
            &&& *final(connections) matches Some(all) && all@ == with_distro(before, connection)
        }),
{
    let mut all: Vec<WslConnection> = match connections.take() {
        Some(all) => all,
        None => Vec::new(),
    };
    let ghost before = match *old(connections) {
        Some(all) => all@,
        None => Seq::empty(),
    };
    assert(all@ =~= before);
    let mut i: usize = 0;
    while i < all.len()
        invariant
            i <= all@.len(),
            all@ == before,
            before == (match *old(connections) {
                Some(all) => all@,
                None => Seq::empty(),
            }),
            forall|j: int| 0 <= j < i ==> !(#[trigger] all@[j]).same(&connection),
        decreases all@.len() - i,
    {
        if all[i].is_same(&connection) {
            assert(known(before, &connection));
            *connections = Some(all);
            return false;
        }
        i = i + 1;
    }
    assert(!known(before, &connection));
    all.push(connection);
    *connections = Some(all);
    true
}

/// Adding a distribution a second time changes nothing.
pub proof fn adding_twice_adds_once(connections: Seq<WslConnection>, connection: WslConnection)
    ensures
        with_distro(with_distro(connections, connection), connection) == with_distro(
            connections,
            connection,
        ),
{
    let once = with_distro(connections, connection);
    if !known(connections, &connection) {
        assert(once[connections.len() as int].same(&connection));
    }
}

} // verus!
