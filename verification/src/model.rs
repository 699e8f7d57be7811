//! The values that the picker works on: workspaces, project groups, folders, rows.
use crate::path;
use crate::path::{PathList, PathListView, ProjectPath};
use crate::seqs;
use vstd::prelude::*;

verus! {

#[derive(Clone, Copy, Debug, PartialEq, Eq, Structural)]
pub struct WorkspaceId(pub i64);

/// A folder's key in the database; a negative one marks the row of a folder that is being
/// created.
#[derive(Clone, Copy, Debug, PartialEq, Eq, Structural)]
pub struct ProjectFolderId(pub i64);

#[derive(Clone, Copy, Debug, PartialEq, Eq, Structural)]
pub struct WorktreeId(pub usize);

/// A point in time: whole seconds since the epoch, and nanoseconds into the second.
#[derive(Clone, Copy, Debug, PartialEq, Eq, Structural)]
pub struct Timestamp {
    pub seconds: i64,
    pub nanoseconds: u32,
}

impl Timestamp {
    /// `self` is at or before `other`.
    pub open spec fn not_after(self, other: Timestamp) -> bool {
        self.seconds < other.seconds || (self.seconds == other.seconds && self.nanoseconds
            <= other.nanoseconds)
    }

    pub fn is_not_after(&self, other: &Timestamp) -> (r: bool)
        ensures
            r == self.not_after(*other),
    {
        self.seconds < other.seconds || (self.seconds == other.seconds && self.nanoseconds
            <= other.nanoseconds)
    }
}

/// How a remote host is reached.
#[derive(Clone, Copy, Debug, PartialEq, Eq, Structural)]
pub enum RemoteKind {
    Ssh,
    Wsl,
    Docker,
    Mock,
}

/// The connection to a remote host.
///
/// - `options`: stands for the connection's options; equal for equal options;
/// - `identity`: stands for the host and account reached; equal where options that differ in
///   detail lead to the same place;
/// - `persistence_key`: the text under which the identity is stored;
/// - `display_name`: how the host is shown.
#[derive(Debug)]
pub struct RemoteConnection {
    pub kind: RemoteKind,
    pub options: u64,
    pub identity: u64,
    pub persistence_key: String,
    pub display_name: String,
}

impl Clone for RemoteConnection {
    fn clone(&self) -> (r: Self)
        ensures
            r == *self,
    {
        RemoteConnection {
            kind: self.kind,
            options: self.options,
            identity: self.identity,
            persistence_key: self.persistence_key.clone(),
            display_name: self.display_name.clone(),
        }
    }
}

/// Both are local, or both lead to the same remote place.
pub open spec fn same_host(a: Option<RemoteConnection>, b: Option<RemoteConnection>) -> bool {
    match (a, b) {
        (None, None) => true,
        (Some(x), Some(y)) => x.identity == y.identity,
        _ => false,
    }
}

pub fn same_remote_connection_identity(
    a: &Option<RemoteConnection>,
    b: &Option<RemoteConnection>,
) -> (r: bool)
    ensures
        r == same_host(*a, *b),
{
    match (a, b) {
        (None, None) => true,
        (Some(x), Some(y)) => x.identity == y.identity,
        _ => false,
    }
}

/// Both are local, or both are reached with the same options.
pub open spec fn same_options(a: Option<RemoteConnection>, b: Option<RemoteConnection>) -> bool {
    match (a, b) {
        (None, None) => true,
        (Some(x), Some(y)) => x.options == y.options,
        _ => false,
    }
}

fn has_same_options(a: &Option<RemoteConnection>, b: &Option<RemoteConnection>) -> (r: bool)
    ensures
        r == same_options(*a, *b),
{
    match (a, b) {
        (None, None) => true,
        (Some(x), Some(y)) => x.options == y.options,
        _ => false,
    }
}

/// The text under which projects on this host are filed in folders; empty for local projects.
pub open spec fn folder_identity(host: Option<RemoteConnection>) -> Seq<char> {
    match host {
        Some(h) => h.persistence_key@,
        None => Seq::empty(),
    }
}

pub fn folder_identity_for_connection(host: &Option<RemoteConnection>) -> (r: String)
    ensures
        r@ == folder_identity(*host),
{
    match host {
        Some(h) => h.persistence_key.clone(),
        None => String::new(),
    }
}

pub fn clone_host(host: &Option<RemoteConnection>) -> (r: Option<RemoteConnection>)
    ensures
        r == *host,
{
    match host {
        Some(h) => Some(h.clone()),
        None => None,
    }
}

/// Where a stored workspace lives.
#[derive(Debug)]
pub enum SerializedWorkspaceLocation {
    Local,
    Remote(RemoteConnection),
}

impl SerializedWorkspaceLocation {
    pub open spec fn host(&self) -> Option<RemoteConnection> {
        match *self {
            SerializedWorkspaceLocation::Local => None,
            SerializedWorkspaceLocation::Remote(h) => Some(h),
        }
    }

    pub fn connection(&self) -> (r: Option<RemoteConnection>)
        ensures
            r == self.host(),
    {
        match self {
            SerializedWorkspaceLocation::Local => None,
            SerializedWorkspaceLocation::Remote(h) => Some(h.clone()),
        }
    }

    pub fn is_local(&self) -> (r: bool)
        ensures
            r == (self.host() is None),
    {
        match self {
            SerializedWorkspaceLocation::Local => true,
            SerializedWorkspaceLocation::Remote(_) => false,
        }
    }
}

/// A workspace from the recent-project database.
pub struct RecentWorkspace {
    pub workspace_id: WorkspaceId,
    pub location: SerializedWorkspaceLocation,
    pub paths: PathList,
    pub identity_paths: PathList,
    pub timestamp: Timestamp,
}

impl RecentWorkspace {
    pub open spec fn host(&self) -> Option<RemoteConnection> {
        self.location.host()
    }

    /// The text under which this workspace is filed in folders.
    pub fn project_folder_identity(&self) -> (r: String)
        ensures
            r@ == folder_identity(self.host()),
    {
        match &self.location {
            SerializedWorkspaceLocation::Local => String::new(),
            SerializedWorkspaceLocation::Remote(h) => h.persistence_key.clone(),
        }
    }

    /// The project group that this workspace belongs to.
    pub fn project_group_key(&self) -> (r: ProjectGroupKey)
        ensures
            r.host == self.host(),
            r.paths@ == self.identity_paths@,
    {
        ProjectGroupKey { host: self.location.connection(), paths: self.identity_paths.clone() }
    }
}

/// A group of projects in a window: a host, and the main paths on it.
pub struct ProjectGroupKey {
    pub host: Option<RemoteConnection>,
    pub paths: PathList,
}

impl Clone for ProjectGroupKey {
    fn clone(&self) -> (r: Self)
        ensures
            r.host == self.host,
            r.paths@ == self.paths@,
    {
        ProjectGroupKey { host: clone_host(&self.host), paths: self.paths.clone() }
    }
}

impl ProjectGroupKey {
    pub open spec fn equal_to(&self, other: &ProjectGroupKey) -> bool {
        &&& same_options(self.host, other.host)
        &&& self.paths@.identity() == other.paths@.identity()
    }

    /// Both lead to the same paths at the same place.
    pub open spec fn matched_by(&self, other: &ProjectGroupKey) -> bool {
        &&& same_host(self.host, other.host)
        &&& self.paths@.identity() == other.paths@.identity()
    }

    pub fn new(host: Option<RemoteConnection>, paths: PathList) -> (r: Self)
        ensures
            r.host == host,
            r.paths == paths,
    {
        ProjectGroupKey { host, paths }
    }

    pub fn is_equal_to(&self, other: &ProjectGroupKey) -> (r: bool)
        ensures
            r == self.equal_to(other),
    {
        has_same_options(&self.host, &other.host) && self.paths.same_paths(&other.paths)
    }

    pub fn matches(&self, other: &ProjectGroupKey) -> (r: bool)
        ensures
            r == self.matched_by(other),
    {
        same_remote_connection_identity(&self.host, &other.host) && self.paths.same_paths(
            &other.paths,
        )
    }
}

pub fn folder_identity_for_group(key: &ProjectGroupKey) -> (r: String)
    ensures
        r@ == folder_identity(key.host),
{
    folder_identity_for_connection(&key.host)
}

/// A folder of the active workspace.
pub struct OpenFolderEntry {
    pub worktree_id: WorktreeId,
    pub name: String,
    pub path: ProjectPath,
    pub branch: Option<String>,
    pub is_active: bool,
    pub connection_options: Option<RemoteConnection>,
}

pub struct OpenFolderView {
    pub worktree_id: WorktreeId,
    pub name: Seq<char>,
    pub path: path::PathView,
    pub branch: Option<Seq<char>>,
    pub is_active: bool,
    pub connection_options: Option<RemoteConnection>,
}

impl View for OpenFolderEntry {
    type V = OpenFolderView;

    open spec fn view(&self) -> OpenFolderView {
        OpenFolderView {
            worktree_id: self.worktree_id,
            name: self.name@,
            path: self.path@,
            branch: path::text_option(self.branch),
            is_active: self.is_active,
            connection_options: self.connection_options,
        }
    }
}

/// A named folder of recent projects.
#[derive(Debug)]
pub struct ProjectFolder {
    pub folder_id: ProjectFolderId,
    pub name: String,
    pub position: i64,
}

/// A project's place in a folder.
pub struct ProjectFolderAssignment {
    pub folder_id: ProjectFolderId,
    pub remote_identity: String,
    pub identity_paths: PathList,
    pub position: i64,
}

impl ProjectFolderAssignment {
    /// The assignment speaks of the project with this identity.
    pub open spec fn fits(
        &self,
        identity: Seq<char>,
        paths: Seq<Seq<path::ComponentView>>,
    ) -> bool {
        &&& self.remote_identity@ == identity
        &&& self.identity_paths@.identity() == paths
    }
}

/// A match that the fuzzy matcher found: which candidate, which bytes of it.
#[derive(Debug, PartialEq, Eq)]
pub struct StringMatch {
    pub candidate_id: usize,
    pub positions: Vec<usize>,
    pub string: String,
}

pub struct MatchView {
    pub candidate_id: usize,
    pub positions: Seq<usize>,
    pub string: Seq<char>,
}

impl View for StringMatch {
    type V = MatchView;

    open spec fn view(&self) -> MatchView {
        MatchView {
            candidate_id: self.candidate_id,
            positions: self.positions@,
            string: self.string@,
        }
    }
}

impl Clone for StringMatch {
    fn clone(&self) -> (r: Self)
        ensures
            r@ == self@,
    {
        let positions: Vec<usize> = self.positions.clone();
        assert(positions@ =~= self.positions@);
        StringMatch { candidate_id: self.candidate_id, positions, string: self.string.clone() }
    }
}

/// A match that highlights nothing.
pub open spec fn blank_match(id: usize) -> MatchView {
    MatchView { candidate_id: id, positions: Seq::empty(), string: Seq::empty() }
}

/// The last match of candidate `id`, where there is one.
pub open spec fn last_match(matches: Seq<MatchView>, id: usize) -> Option<MatchView>
    decreases matches.len(),
{
    if matches.len() == 0 {
        None
    } else if matches.last().candidate_id == id {
        Some(matches.last())
    } else {
        last_match(matches.drop_last(), id)
    }
}

/// The match of candidate `id`, or one that highlights nothing.
pub open spec fn match_for(matches: Seq<MatchView>, id: usize) -> MatchView {
    match last_match(matches, id) {
        Some(m) => m,
        None => blank_match(id),
    }
}

/// Candidate `id` is among the matches.
pub open spec fn matched(matches: Seq<MatchView>, id: usize) -> bool {
    exists|i: int| 0 <= i < matches.len() && (#[trigger] matches[i]).candidate_id == id
}

pub fn new_blank_match(id: usize) -> (r: StringMatch)
    ensures
        r@ == blank_match(id),
{
    let r: StringMatch = StringMatch { candidate_id: id, positions: Vec::new(), string: String::new() };
    assert(r@.positions =~= Seq::empty());
    r
}

pub fn recent_project_match(id: usize, matches: &Vec<StringMatch>) -> (r: StringMatch)
    ensures
        r@ == match_for(seqs::views(matches@), id),
{
    let ghost all = seqs::views(matches@);
    let mut n: usize = matches.len();
    assert(all.take(n as int) =~= all);
    while n > 0
        invariant
            n <= matches@.len(),
            all == seqs::views(matches@),
            last_match(all, id) == last_match(all.take(n as int), id),
        decreases n,
    {
        assert(all.take(n as int).last() == matches@[n - 1]@);
        assert(all.take(n as int).drop_last() =~= all.take(n - 1));
        if matches[n - 1].candidate_id == id {
            return matches[n - 1].clone();
        }
        n = n - 1;
    }
    new_blank_match(id)
}

pub fn is_matched(matches: &Vec<StringMatch>, id: usize) -> (r: bool)
    ensures
        r == matched(seqs::views(matches@), id),
{
    let ghost all = seqs::views(matches@);
    let mut i: usize = 0;
    while i < matches.len()
        invariant
            i <= matches@.len(),
            all == seqs::views(matches@),
            forall|j: int| 0 <= j < i ==> (#[trigger] all[j]).candidate_id != id,
        decreases matches@.len() - i,
    {
        if matches[i].candidate_id == id {
            assert(all[i as int].candidate_id == id);
            return true;
        }
        i = i + 1;
    }
    false
}

/// A row of the picker.
#[derive(Debug, PartialEq, Eq)]
pub enum ProjectPickerEntry {
    Header(String),
    /// A folder of the active workspace, by its index among the open folders.
    OpenFolder { index: usize, positions: Vec<usize> },
    /// A project group of this window, by its index among the groups.
    ProjectGroup(StringMatch),
    /// A named folder of recent projects.
    Folder { folder_id: ProjectFolderId, name: String },
    /// A recent workspace, by its index among the workspaces.
    RecentProject(StringMatch),
    /// Creates a folder.
    NewFolder,
}

pub enum EntryView {
    Header(Seq<char>),
    OpenFolder { index: usize, positions: Seq<usize> },
    ProjectGroup(MatchView),
    Folder { folder_id: ProjectFolderId, name: Seq<char> },
    RecentProject(MatchView),
    NewFolder,
}

impl View for ProjectPickerEntry {
    type V = EntryView;

    open spec fn view(&self) -> EntryView {
        match self {
            ProjectPickerEntry::Header(title) => EntryView::Header(title@),
            ProjectPickerEntry::OpenFolder { index, positions } => EntryView::OpenFolder {
                index: *index,
                positions: positions@,
            },
            ProjectPickerEntry::ProjectGroup(m) => EntryView::ProjectGroup(m@),
            ProjectPickerEntry::Folder { folder_id, name } => EntryView::Folder {
                folder_id: *folder_id,
                name: name@,
            },
            ProjectPickerEntry::RecentProject(m) => EntryView::RecentProject(m@),
            ProjectPickerEntry::NewFolder => EntryView::NewFolder,
        }
    }
}

impl EntryView {
    /// The row can be selected: it is no header.
    pub open spec fn selectable(self) -> bool {
        !(self is Header)
    }

    /// The row stands for a folder that is being created.
    pub open spec fn is_draft(self) -> bool {
        self matches EntryView::Folder { folder_id, .. } && folder_id.0 < 0
    }
}

pub fn is_selectable_entry(entry: &ProjectPickerEntry) -> (r: bool)
    ensures
        r == entry@.selectable(),
{
    match entry {
        ProjectPickerEntry::Header(_) => false,
        _ => true,
    }
}

pub fn is_draft_entry(entry: &ProjectPickerEntry) -> (r: bool)
    ensures
        r == entry@.is_draft(),
{
    match entry {
        ProjectPickerEntry::Folder { folder_id, .. } => folder_id.0 < 0,
        _ => false,
    }
}

#[derive(Clone, Copy, Debug, PartialEq, Eq, Structural)]
pub enum FolderEdit {
    Create,
    Rename(ProjectFolderId),
}

#[derive(Clone, Copy, Debug, PartialEq, Eq, Structural)]
pub enum ProjectPickerStyle {
    Modal,
    Popover,
}

/// A project that is to be put in a folder.
pub struct PendingFolderAssign {
    pub remote_identity: String,
    pub identity_paths: PathList,
}

pub struct PendingView {
    pub remote_identity: Seq<char>,
    pub identity_paths: PathListView,
}

impl View for PendingFolderAssign {
    type V = PendingView;

    open spec fn view(&self) -> PendingView {
        PendingView {
            remote_identity: self.remote_identity@,
            identity_paths: self.identity_paths@,
        }
    }
}

impl Clone for PendingFolderAssign {
    fn clone(&self) -> (r: Self)
        ensures
            r@ == self@,
    {
        PendingFolderAssign {
            remote_identity: self.remote_identity.clone(),
            identity_paths: self.identity_paths.clone(),
        }
    }
}

impl PendingFolderAssign {
    pub fn from_workspace(workspace: &RecentWorkspace) -> (r: Self)
        ensures
            r@ == (PendingView {
                remote_identity: folder_identity(workspace.host()),
                identity_paths: workspace.identity_paths@,
            }),
    {
        PendingFolderAssign {
            remote_identity: workspace.project_folder_identity(),
            identity_paths: workspace.identity_paths.clone(),
        }
    }

    pub fn from_project_group(key: &ProjectGroupKey) -> (r: Self)
        ensures
            r@ == (PendingView {
                remote_identity: folder_identity(key.host),
                identity_paths: key.paths@,
            }),
    {
        PendingFolderAssign {
            remote_identity: folder_identity_for_group(key),
            identity_paths: key.paths.clone(),
        }
    }
}

} // verus!
