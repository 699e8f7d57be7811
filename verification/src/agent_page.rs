//! The agent page: the history of threads beside the conversation of the selected one.
use crate::model::Timestamp;
use crate::path;
use crate::path::{PathList, PathListView};
use crate::seqs;
use vstd::prelude::*;

verus! {

#[derive(Clone, Copy, Debug, PartialEq, Eq, Structural)]
pub struct ThreadId(pub u128);

/// Who a thread is led with.
#[derive(Clone, Copy, Debug, PartialEq, Eq, Structural)]
pub enum AgentKind {
    Native,
    Custom,
    Stub,
}

/// What is known of a thread.
///
/// - `key`: the text that stands for the thread's key;
/// - `session_id`: the session that the thread belongs to, where it has one;
/// - `agent_id`: the agent that the thread is led with;
/// - `agent`: the kind of that agent;
/// - `folder_paths`: the folders that the thread works in;
/// - `title`: the title that the thread was given, where it was given one;
/// - `display_title`: the title as it is shown.
pub struct ThreadMetadata {
    pub thread_id: ThreadId,
    pub key: String,
    pub session_id: Option<String>,
    pub agent_id: String,
    pub agent: AgentKind,
    pub folder_paths: PathList,
    pub title: Option<String>,
    pub display_title: String,
    pub updated_at: Timestamp,
    pub archived: bool,
}

pub struct ThreadView {
    pub thread_id: ThreadId,
    pub key: Seq<char>,
    pub session_id: Option<Seq<char>>,
    pub agent_id: Seq<char>,
    pub agent: AgentKind,
    pub folder_paths: PathListView,
    pub title: Option<Seq<char>>,
    pub display_title: Seq<char>,
    pub updated_at: Timestamp,
    pub archived: bool,
}

impl View for ThreadMetadata {
    type V = ThreadView;

    open spec fn view(&self) -> ThreadView {
        ThreadView {
            thread_id: self.thread_id,
            key: self.key@,
            session_id: path::text_option(self.session_id),
            agent_id: self.agent_id@,
            agent: self.agent,
            folder_paths: self.folder_paths@,
            title: path::text_option(self.title),
            display_title: self.display_title@,
            updated_at: self.updated_at,
            archived: self.archived,
        }
    }
}

fn clone_text(text: &Option<String>) -> (r: Option<String>)
    ensures
        r == *text,
{
    match text {
        Some(text) => Some(text.clone()),
        None => None,
    }
}

impl Clone for ThreadMetadata {
    fn clone(&self) -> (r: Self)
        ensures
            r@ == self@,
    {
        ThreadMetadata {
            thread_id: self.thread_id,
            key: self.key.clone(),
            session_id: clone_text(&self.session_id),
            agent_id: self.agent_id.clone(),
            agent: self.agent,
            folder_paths: self.folder_paths.clone(),
            title: clone_text(&self.title),
            display_title: self.display_title.clone(),
            updated_at: self.updated_at,
            archived: self.archived,
        }
    }
}

/// Threads are ordered by when they were updated, the newest first.
pub open spec fn newest_first() -> spec_fn(ThreadView, ThreadView) -> bool {
    |a: ThreadView, b: ThreadView| b.updated_at.not_after(a.updated_at)
}

pub open spec fn not_archived() -> spec_fn(ThreadView) -> bool {
    |t: ThreadView| !t.archived
}

/// The history of the threads in the store: those that are not archived, the newest first.
/// Without a store it is empty.
pub open spec fn history(store: Option<Seq<ThreadView>>) -> Seq<ThreadView> {
    match store {
        Some(threads) => seqs::stable_sort(threads.filter(not_archived()), newest_first()),
        None => Seq::empty(),
    }
}

pub open spec fn store_view(store: Option<&Vec<ThreadMetadata>>) -> Option<Seq<ThreadView>> {
    match store {
        Some(threads) => Some(seqs::views(threads@)),
        None => None,
    }
}

fn sorted_history(threads: &Vec<ThreadMetadata>) -> (r: Vec<ThreadMetadata>)
    ensures
        seqs::views(r@) == history(Some(seqs::views(threads@))),
{
    let ghost all = seqs::views(threads@);
    let ghost p = not_archived();
    let mut r: Vec<ThreadMetadata> = Vec::new();
    let mut i: usize = 0;
    proof {
        reveal(Seq::filter);
        assert(all.take(0).filter(p) =~= Seq::empty());
        assert(seqs::views(r@) =~= Seq::empty());
    }
    while i < threads.len()
        invariant
            i <= threads@.len(),
            all == seqs::views(threads@),
            p == not_archived(),
            seqs::views(r@) == seqs::stable_sort(all.take(i as int).filter(p), newest_first()),
        decreases threads@.len() - i,
    {
        let ghost kept = all.take(i as int).filter(p);
        proof {
            assert(all[i as int] == threads@[i as int]@);
            assert(all.take(i + 1) =~= all.take(i as int).push(all[i as int]));
            all.take(i as int).lemma_filter_push(all[i as int], p);
        }
        if !threads[i].archived {
            let thread: ThreadMetadata = threads[i].clone();
            let ghost sorted = seqs::views(r@);
            let mut at: usize = r.len();
            while at > 0 && !thread.updated_at.is_not_after(&r[at - 1].updated_at)
                invariant
                    at <= r@.len(),
                    sorted == seqs::views(r@),
                    forall|j: int|
                        at <= j < sorted.len() ==> !newest_first()(#[trigger] sorted[j], thread@),
                decreases at,
            {
                assert(sorted[at - 1] == r@[at - 1]@);
                at = at - 1;
            }
            proof {
                if at > 0 {
                    assert(sorted[at - 1] == r@[at - 1]@);
                }
                seqs::lemma_insertion_point_is(sorted, thread@, newest_first(), at as int);
                seqs::lemma_stable_sort_push(kept, thread@, newest_first());
                assert(seqs::views(r@.insert(at as int, thread)) =~= sorted.insert(
                    at as int,
                    thread@,
                ));
            }
            r.insert(at, thread);
        }
        i = i + 1;
    }
    assert(all.take(i as int) =~= all);
    r
}

/// The history is in the order of the last update, the newest thread first. It holds the threads
/// that are not archived, each as often as the store does, and no other; threads that were
/// updated at the same time keep the order of the store.
pub proof fn history_is_newest_first(threads: Seq<ThreadView>, t: ThreadView)
    ensures
        forall|i: int, j: int|
            0 <= i < j < history(Some(threads)).len() ==> (#[trigger] history(
                Some(threads),
            )[j]).updated_at.not_after((#[trigger] history(Some(threads))[i]).updated_at),
        history(Some(threads)).to_multiset() == threads.filter(not_archived()).to_multiset(),
        forall|i: int|
            0 <= i < history(Some(threads)).len() ==> !(#[trigger] history(
                Some(threads),
            )[i]).archived,
        history(Some(threads)).filter(seqs::ties(t, newest_first())) == threads.filter(
            not_archived(),
        ).filter(seqs::ties(t, newest_first())),
{
    let le = newest_first();
    let kept = threads.filter(not_archived());
    let all = history(Some(threads));
    assert(seqs::is_preorder(le)) by {
        assert forall|a: ThreadView, b: ThreadView| #[trigger] le(a, b) || le(b, a) by {}
        assert forall|a: ThreadView, b: ThreadView, c: ThreadView| #[trigger]
            le(a, b) && #[trigger] le(b, c) implies le(a, c) by {}
    }
    seqs::lemma_stable_sort(kept, le);
    seqs::lemma_stable_sort_keeps_ties(kept, le, t);
    assert forall|i: int, j: int| 0 <= i < j < all.len() implies (
    #[trigger] all[j]).updated_at.not_after((#[trigger] all[i]).updated_at) by {
        assert(le(all[i], all[j]));
    }
    assert forall|i: int| 0 <= i < all.len() implies !(#[trigger] all[i]).archived by {
        all.to_multiset_ensures();
        kept.to_multiset_ensures();
        assert(all.contains(all[i]));
        assert(all.to_multiset().count(all[i]) > 0);
        assert(kept.to_multiset().count(all[i]) > 0);
        assert(kept.contains(all[i]));
        let k = choose|k: int| 0 <= k < kept.len() && kept[k] == all[i];
        threads.lemma_filter_pred(not_archived(), k);
    }
}

/// The conversation that the agent panel shows: the view, and the thread in it.
#[derive(Clone, Copy, Debug, PartialEq, Eq, Structural)]
pub struct Conversation {
    pub view: u64,
    pub thread_id: ThreadId,
}

/// What the page sees of its workspace: whether it still exists and has an agent panel, and what
/// the panel shows.
#[derive(Clone, Copy, Debug, PartialEq, Eq, Structural)]
pub struct PanelScene {
    pub workspace_alive: bool,
    pub panel: Option<Option<Conversation>>,
}

impl PanelScene {
    /// The panel, where it can be reached.
    pub open spec fn reached(self) -> Option<Option<Conversation>> {
        if self.workspace_alive {
            self.panel
        } else {
            None
        }
    }
}

/// What came of following the panel: whether the page changed, and which thread of the history is
/// to be scrolled into view.
#[derive(Clone, Copy, Debug, PartialEq, Eq, Structural)]
pub struct SyncStep {
    pub changed: bool,
    pub reveal: Option<usize>,
}

/// What came of turning to the panel: whether its events are to be listened to from now on, and
/// what came of following it.
#[derive(Clone, Copy, Debug, PartialEq, Eq, Structural)]
pub struct PanelStep {
    pub subscribe: bool,
    pub sync: SyncStep,
}

/// What happens in the agent panel.
#[derive(Clone, Copy, Debug, PartialEq, Eq, Structural)]
pub enum AgentPanelEvent {
    ActiveViewChanged,
    ActiveViewFocused,
    EntryChanged,
    TerminalCloseRequested,
    ThreadInteracted,
}

impl AgentPanelEvent {
    /// The page follows the panel on this event.
    pub open spec fn followed(self) -> bool {
        self is ActiveViewChanged || self is ActiveViewFocused || self is EntryChanged
    }

    pub fn is_followed(&self) -> (r: bool)
        ensures
            r == self.followed(),
    {
        match self {
            AgentPanelEvent::ActiveViewChanged => true,
            AgentPanelEvent::ActiveViewFocused => true,
            AgentPanelEvent::EntryChanged => true,
            AgentPanelEvent::TerminalCloseRequested => false,
            AgentPanelEvent::ThreadInteracted => false,
        }
    }
}

/// What is to be done with the agent page of a workspace.
#[derive(Clone, Copy, Debug, PartialEq, Eq, Structural)]
pub enum PageStep {
    /// Close the active item, which is the page.
    CloseActive,
    /// Activate this page.
    Activate(u64),
    /// Create a page and add it to the active pane.
    Create,
}

/// A thread that the panel is to load.
///
/// - `agent_id`: the agent that leads it;
/// - `work_dirs`: the folders that it works in, where they are known;
/// - `title`: its title, where it has one.
pub struct ThreadToLoad {
    pub thread_id: ThreadId,
    pub agent_id: String,
    pub work_dirs: Option<PathList>,
    pub title: Option<String>,
}

pub struct ThreadToLoadView {
    pub thread_id: ThreadId,
    pub agent_id: Seq<char>,
    pub work_dirs: Option<PathListView>,
    pub title: Option<Seq<char>>,
}

impl View for ThreadToLoad {
    type V = ThreadToLoadView;

    open spec fn view(&self) -> ThreadToLoadView {
        ThreadToLoadView {
            thread_id: self.thread_id,
            agent_id: self.agent_id@,
            work_dirs: match self.work_dirs {
                Some(paths) => Some(paths@),
                None => None,
            },
            title: path::text_option(self.title),
        }
    }
}

impl ThreadView {
    /// What the panel loads of the thread.
    pub open spec fn to_load(&self) -> ThreadToLoadView {
        ThreadToLoadView {
            thread_id: self.thread_id,
            agent_id: self.agent_id,
            work_dirs: Some(self.folder_paths),
            title: self.title,
        }
    }
}

/// What is to be loaded in the panel. `T` describes a thread.
#[derive(Debug, PartialEq, Eq)]
pub enum ThreadLoad<T> {
    Nothing,
    Thread { thread: T, focus: bool },
    NewThread { focus: bool },
}

/// What opening the page and loading a thread in it does: the page, and what the panel loads.
#[derive(Debug, PartialEq, Eq)]
pub struct OpenAndLoadStep<T> {
    pub page: PageStep,
    pub load: ThreadLoad<T>,
}

/// What loading a thread does first; the panel is to be followed again behind the load.
pub struct LoadStep {
    pub panel: Option<PanelStep>,
    pub load: ThreadLoad<ThreadToLoad>,
}

/// What deleting a thread does: the thread is removed from the panel, or deleted from the store
/// where there is no panel, and a connection to its agent is asked for. What follows runs in the
/// background, step by step.
///
/// - `thread_id`: the thread;
/// - `connect_to`: the agent that a connection is asked for, where one is;
/// - `session_id`: the session that the thread belongs to, where it has one.
#[derive(Debug, PartialEq, Eq)]
pub struct DeletePlan {
    pub thread_id: ThreadId,
    pub remove_from_panel: bool,
    pub delete_from_store: bool,
    pub connect_to: Option<String>,
    pub session_id: Option<String>,
}

/// How far deleting a thread has come in the background. `supports_delete` says, where the agent
/// lists its sessions, whether they can be deleted.
#[derive(Clone, Copy, Debug, PartialEq, Eq, Structural)]
pub enum DeletionProgress {
    Begun,
    CleanedUp,
    ConnectionFailed,
    Connected { supports_delete: Option<bool> },
}

/// What comes next in the background of a deletion.
#[derive(Debug, PartialEq, Eq)]
pub enum DeletionStep {
    /// Clean up the archived working trees of the thread.
    CleanUpWorktrees(ThreadId),
    /// Wait for the connection that was asked for.
    WaitForConnection,
    /// Let the agent delete the session.
    DeleteSession(String),
    Done,
}

pub enum DeletionStepView {
    CleanUpWorktrees(ThreadId),
    WaitForConnection,
    DeleteSession(Seq<char>),
    Done,
}

impl View for DeletionStep {
    type V = DeletionStepView;

    open spec fn view(&self) -> DeletionStepView {
        match self {
            DeletionStep::CleanUpWorktrees(thread_id) => DeletionStepView::CleanUpWorktrees(
                *thread_id,
            ),
            DeletionStep::WaitForConnection => DeletionStepView::WaitForConnection,
            DeletionStep::DeleteSession(session_id) => DeletionStepView::DeleteSession(
                session_id@,
            ),
            DeletionStep::Done => DeletionStepView::Done,
        }
    }
}

impl DeletePlan {
    /// What comes next. The cleanup comes first, whatever becomes of the connection; the session
    /// is deleted where there is one, and the agent lists sessions and lets them be deleted.
    pub open spec fn step_at(&self, progress: DeletionProgress) -> DeletionStepView {
        match progress {
            DeletionProgress::Begun => DeletionStepView::CleanUpWorktrees(self.thread_id),
            DeletionProgress::CleanedUp => if self.connect_to is Some {
                DeletionStepView::WaitForConnection
            } else {
                DeletionStepView::Done
            },
            DeletionProgress::ConnectionFailed => DeletionStepView::Done,
            DeletionProgress::Connected { supports_delete } => match self.session_id {
                Some(session_id) => if supports_delete == Some(true) {
                    DeletionStepView::DeleteSession(session_id@)
                } else {
                    DeletionStepView::Done
                },
                None => DeletionStepView::Done,
            },
        }
    }

    pub fn next_step(&self, progress: DeletionProgress) -> (r: DeletionStep)
        ensures
            r@ == self.step_at(progress),
    {
        match progress {
            DeletionProgress::Begun => DeletionStep::CleanUpWorktrees(self.thread_id),
            DeletionProgress::CleanedUp => {
                if self.connect_to.is_some() {
                    DeletionStep::WaitForConnection
                } else {
                    DeletionStep::Done
                }
            },
            DeletionProgress::ConnectionFailed => DeletionStep::Done,
            DeletionProgress::Connected { supports_delete } => match (
                &self.session_id,
                supports_delete,
            ) {
                (Some(session_id), Some(true)) => DeletionStep::DeleteSession(session_id.clone()),
                _ => DeletionStep::Done,
            },
        }
    }

    /// The steps of the deletion, where `connecting` is what comes of waiting for the connection.
    pub open spec fn steps(&self, connecting: DeletionProgress) -> Seq<DeletionStepView> {
        let first = seq![
            self.step_at(DeletionProgress::Begun),
            self.step_at(DeletionProgress::CleanedUp),
        ];
        if self.connect_to is Some {
            first.push(self.step_at(connecting))
        } else {
            first
        }
    }

    /// The archived working trees of the thread are cleaned up once, before anything else and
    /// whatever comes of connecting.
    pub proof fn worktrees_are_cleaned_up_once(&self, connecting: DeletionProgress)
        requires
            connecting is ConnectionFailed || connecting is Connected,
        ensures
            self.steps(connecting)[0] == DeletionStepView::CleanUpWorktrees(self.thread_id),
            forall|i: int|
                0 < i < self.steps(connecting).len() ==> !(#[trigger] self.steps(connecting)[i]
                    is CleanUpWorktrees),
    {
    }

    /// A session is deleted exactly where it is that of the thread, a connection was asked for and
    /// obtained, and the agent lists sessions and lets them be deleted.
    pub proof fn sessions_are_deleted_over_a_connection(
        &self,
        connecting: DeletionProgress,
        session_id: Seq<char>,
    )
        requires
            connecting is ConnectionFailed || connecting is Connected,
        ensures
            self.steps(connecting).contains(DeletionStepView::DeleteSession(session_id)) <==> {
                &&& self.connect_to is Some
                &&& connecting == (DeletionProgress::Connected { supports_delete: Some(true) })
                &&& path::text_option(self.session_id) == Some(session_id)
            },
    {
        let steps = self.steps(connecting);
        let step = DeletionStepView::DeleteSession(session_id);
        if self.connect_to is Some && self.step_at(connecting) == step {
            assert(steps[2] == step);
        }
        if steps.contains(step) {
            let i = choose|i: int| 0 <= i < steps.len() && steps[i] == step;
            assert(i == 2);
        }
    }
}

/// The icons of threads.
#[derive(Clone, Copy, Debug, PartialEq, Eq, Structural)]
pub enum ThreadIcon {
    ZedAgent,
    Sparkle,
}

/// What the history shows of a thread.
#[derive(Debug)]
pub struct HistoryItem {
    pub item_id: String,
    pub menu_id: String,
    pub title: String,
    pub updated_at: Timestamp,
    pub icon: ThreadIcon,
    pub selected: bool,
    pub hovered: bool,
}

/// What the page shows: how many threads its history lists, and the conversation.
#[derive(Clone, Copy, Debug, PartialEq, Eq, Structural)]
pub struct PagePlan {
    pub history_count: usize,
    pub conversation: Option<u64>,
}

/// The first agent page among the items of a pane; an item that is none is `None`.
pub open spec fn page_in_pane(items: Seq<Option<u64>>) -> Option<u64> {
    match seqs::first_index(items, is_page()) {
        Some(i) => items[i as int],
        None => None,
    }
}

pub open spec fn is_page() -> spec_fn(Option<u64>) -> bool {
    |item: Option<u64>| item is Some
}

fn find_page(items: &Vec<Option<u64>>) -> (r: Option<u64>)
    ensures
        r == page_in_pane(items@),
{
    let mut i: usize = 0;
    while i < items.len()
        invariant
            i <= items@.len(),
            forall|j: int| 0 <= j < i ==> !is_page()(#[trigger] items@[j]),
        decreases items@.len() - i,
    {
        if items[i].is_some() {
            proof {
                assert(seqs::is_first(items@, is_page(), i as int));
                seqs::lemma_first_index_is(items@, is_page(), i as int);
            }
            return items[i];
        }
        i = i + 1;
    }
    proof {
        seqs::lemma_first_index_none(items@, is_page());
    }
    None
}

/// What opening the page does: a page of the active pane is activated, or one of the workspace,
/// or one is created.
pub open spec fn open_step(pane_items: Seq<Option<u64>>, pages: Seq<u64>) -> PageStep {
    match page_in_pane(pane_items) {
        Some(page) => PageStep::Activate(page),
        None => if pages.len() > 0 {
            PageStep::Activate(pages[0])
        } else {
            PageStep::Create
        },
    }
}

/// What toggling the page does: an active page of the active pane is closed.
pub open spec fn toggle_step(
    pane_items: Seq<Option<u64>>,
    active_item: Option<u64>,
    pages: Seq<u64>,
) -> PageStep {
    if page_in_pane(pane_items) is Some && active_item == page_in_pane(pane_items) {
        PageStep::CloseActive
    } else {
        open_step(pane_items, pages)
    }
}

/// Toggling a page that is not active opens it, and toggling it again, now that it is the active
/// item, closes it.
pub proof fn toggling_twice_closes(
    pane_items: Seq<Option<u64>>,
    active_item: Option<u64>,
    pages: Seq<u64>,
    page: u64,
)
    requires
        page_in_pane(pane_items) == Some(page),
        active_item != Some(page),
    ensures
        toggle_step(pane_items, active_item, pages) == PageStep::Activate(page),
        toggle_step(pane_items, Some(page), pages) == PageStep::CloseActive,
{
}

/// Opening the page never closes it.
pub proof fn opening_never_closes(pane_items: Seq<Option<u64>>, pages: Seq<u64>)
    ensures
        open_step(pane_items, pages) != PageStep::CloseActive,
{
}

/// The agent page of a workspace.
///
/// - `history_items`: the threads that are listed;
/// - `history_list_len`: how many items the list on the screen has;
/// - `hovered_history_index`: the item below the pointer;
/// - `conversation_view`: the view that shows the selected thread;
/// - `panel_subscribed`: the events of the panel are listened to.
pub struct AgentPage {
    pub history_items: Vec<ThreadMetadata>,
    pub history_list_len: usize,
    pub hovered_history_index: Option<usize>,
    pub selected_thread_id: Option<ThreadId>,
    pub conversation_view: Option<u64>,
    pub panel_subscribed: bool,
}

impl AgentPage {
    /// What holds of the page between calls: the list on the screen has an item for each thread,
    /// what is hovered is one of them, and a conversation is shown exactly while a thread is
    /// selected.
    pub open spec fn wf(&self) -> bool {
        &&& self.history_list_len == self.history_items@.len()
        &&& self.hovered_history_index matches Some(i) ==> i < self.history_items@.len()
        &&& self.selected_thread_id is Some == self.conversation_view is Some
    }

    /// A page with the history of the store, where there is a store.
    pub fn new(store: Option<&Vec<ThreadMetadata>>) -> (r: Self)
        ensures
            r.wf(),
            seqs::views(r.history_items@) == history(store_view(store)),
            r.hovered_history_index is None,
            r.selected_thread_id is None,
            r.conversation_view is None,
            !r.panel_subscribed,
    {
        let mut page: AgentPage = AgentPage {
            history_items: Vec::new(),
            history_list_len: 0,
            hovered_history_index: None,
            selected_thread_id: None,
            conversation_view: None,
            panel_subscribed: false,
        };
        page.refresh_history(store);
        page
    }

    /// The thread that a new page opens: the first of the history, unless a conversation is shown.
    pub open spec fn first_thread(&self) -> Option<ThreadView> {
        if self.conversation_view is None && self.history_items@.len() > 0 {
            Some(self.history_items@[0]@)
        } else {
            None
        }
    }

    /// The thread that a new page opens once it has turned to the panel: the newest one, unless
    /// the panel shows a conversation.
    pub fn initial_thread(&self) -> (r: Option<ThreadMetadata>)
        ensures
            r is Some == self.first_thread() is Some,
            r matches Some(thread) ==> self.first_thread() == Some(thread@),
    {
        if self.conversation_view.is_none() && self.history_items.len() > 0 {
            Some(self.history_items[0].clone())
        } else {
            None
        }
    }

    /// Lists the threads of the store again.
    pub fn refresh_history(&mut self, store: Option<&Vec<ThreadMetadata>>)
        ensures
            old(self).wf() ==> final(self).wf(),
            seqs::views(final(self).history_items@) == history(store_view(store)),
            final(self).history_list_len == final(self).history_items@.len(),
            final(self).hovered_history_index == (match old(self).hovered_history_index {
                Some(i) => if store is Some && i < final(self).history_items@.len() {
                    Some(i)
                } else {
                    None
                },
                None => None,
            }),
            *final(self) == (AgentPage {
                history_items: final(self).history_items,
                history_list_len: final(self).history_list_len,
                hovered_history_index: final(self).hovered_history_index,
                ..*old(self)
            }),
    {
        match store {
            None => {
                self.history_items = Vec::new();
                self.history_list_len = 0;
                self.hovered_history_index = None;
            },
            Some(threads) => {
                let items: Vec<ThreadMetadata> = sorted_history(threads);
                self.history_list_len = items.len();
                self.history_items = items;
                if let Some(ix) = self.hovered_history_index {
                    if ix >= self.history_items.len() {
                        self.hovered_history_index = None;
                    }
                }
            },
        }
    }

    /// Where the thread stands in the history.
    pub open spec fn history_index(&self, thread_id: ThreadId) -> Option<usize> {
        seqs::first_index(self.history_items@, |t: ThreadMetadata| t.thread_id == thread_id)
    }

    fn find_in_history(&self, thread_id: ThreadId) -> (r: Option<usize>)
        ensures
            r == self.history_index(thread_id),
            r matches Some(i) ==> i < self.history_items@.len(),
    {
        let ghost p = |t: ThreadMetadata| t.thread_id == thread_id;
        let mut i: usize = 0;
        while i < self.history_items.len()
            invariant
                i <= self.history_items@.len(),
                p == (|t: ThreadMetadata| t.thread_id == thread_id),
                forall|j: int| 0 <= j < i ==> !p(#[trigger] self.history_items@[j]),
            decreases self.history_items@.len() - i,
        {
            if self.history_items[i].thread_id == thread_id {
                proof {
                    assert(seqs::is_first(self.history_items@, p, i as int));
                    seqs::lemma_first_index_is(self.history_items@, p, i as int);
                }
                return Some(i);
            }
            i = i + 1;
        }
        proof {
            seqs::lemma_first_index_none(self.history_items@, p);
        }
        None
    }

    /// The page once it shows what the panel shows.
    pub open spec fn following(&self, shown: Option<Conversation>) -> AgentPage {
        AgentPage {
            selected_thread_id: match shown {
                Some(c) => Some(c.thread_id),
                None => None,
            },
            conversation_view: match shown {
                Some(c) => Some(c.view),
                None => None,
            },
            ..*self
        }
    }

    /// What comes of following the panel.
    pub open spec fn sync_step(&self, shown: Option<Conversation>) -> SyncStep {
        let after = self.following(shown);
        let changed = self.selected_thread_id != after.selected_thread_id
            || self.conversation_view != after.conversation_view;
        SyncStep {
            changed,
            reveal: match shown {
                Some(c) => if changed {
                    self.history_index(c.thread_id)
                } else {
                    None
                },
                None => None,
            },
        }
    }

    /// Shows what the panel shows, and brings its thread into view in the history.
    pub fn sync_from_panel(&mut self, shown: Option<Conversation>) -> (r: SyncStep)
        ensures
            old(self).wf() ==> final(self).wf(),
            *final(self) == old(self).following(shown),
            r == old(self).sync_step(shown),
    {
        let (selected_thread_id, conversation_view): (Option<ThreadId>, Option<u64>) = match shown {
            Some(c) => (Some(c.thread_id), Some(c.view)),
            None => (None, None),
        };
        let same_thread: bool = match (self.selected_thread_id, selected_thread_id) {
            (Some(a), Some(b)) => a == b,
            (None, None) => true,
            _ => false,
        };
        let same_view: bool = match (self.conversation_view, conversation_view) {
            (Some(a), Some(b)) => a == b,
            (None, None) => true,
            _ => false,
        };
        if same_thread && same_view {
            return SyncStep { changed: false, reveal: None };
        }
        self.selected_thread_id = selected_thread_id;
        self.conversation_view = conversation_view;
        let reveal: Option<usize> = match selected_thread_id {
            Some(thread_id) => self.find_in_history(thread_id),
            None => None,
        };
        SyncStep { changed: true, reveal }
    }

    /// Following the panel a second time changes nothing.
    pub proof fn following_twice_changes_nothing(&self, shown: Option<Conversation>)
        ensures
            self.following(shown).following(shown) == self.following(shown),
            !self.following(shown).sync_step(shown).changed,
    {
    }

    /// The page once it has turned to the panel, where that can be reached.
    pub open spec fn turned_to_panel(&self, scene: PanelScene) -> AgentPage {
        match scene.reached() {
            Some(shown) => AgentPage { panel_subscribed: true, ..self.following(shown) },
            None => *self,
        }
    }

    /// What comes of turning to the panel: its events are subscribed to once.
    pub open spec fn panel_step(&self, scene: PanelScene) -> Option<PanelStep> {
        match scene.reached() {
            Some(shown) => Some(
                PanelStep { subscribe: !self.panel_subscribed, sync: self.sync_step(shown) },
            ),
            None => None,
        }
    }

    /// Turns to the panel: listens to it from now on, and follows it.
    pub fn ensure_panel_subscription(&mut self, scene: PanelScene) -> (r: Option<PanelStep>)
        ensures
            old(self).wf() ==> final(self).wf(),
            *final(self) == old(self).turned_to_panel(scene),
            r == old(self).panel_step(scene),
    {
        if !scene.workspace_alive {
            return None;
        }
        match scene.panel {
            None => None,
            Some(shown) => {
                let subscribe: bool = !self.panel_subscribed;
                self.panel_subscribed = true;
                let sync: SyncStep = self.sync_from_panel(shown);
                Some(PanelStep { subscribe, sync })
            },
        }
    }

    /// What an event of the panel does to the page.
    pub fn on_panel_event(&mut self, event: AgentPanelEvent, shown: Option<Conversation>) -> (r:
        Option<SyncStep>)
        ensures
            old(self).wf() ==> final(self).wf(),
            event.followed() ==> *final(self) == old(self).following(shown) && r == Some(
                old(self).sync_step(shown),
            ),
            !event.followed() ==> *final(self) == *old(self) && r is None,
    {
        if event.is_followed() {
            Some(self.sync_from_panel(shown))
        } else {
            None
        }
    }

    /// Opens the page, or closes it where it is the active item. `pane_items` are the items of
    /// the active pane, `pages` the agent pages of the workspace.
    pub fn open_or_toggle(
        pane_items: &Vec<Option<u64>>,
        active_item: Option<u64>,
        pages: &Vec<u64>,
    ) -> (r: PageStep)
        ensures
            r == toggle_step(pane_items@, active_item, pages@),
    {
        match find_page(pane_items) {
            Some(existing) => {
                let is_active: bool = match active_item {
                    Some(item) => item == existing,
                    None => false,
                };
                if is_active {
                    PageStep::CloseActive
                } else {
                    PageStep::Activate(existing)
                }
            },
            None => {
                if pages.len() > 0 {
                    PageStep::Activate(pages[0])
                } else {
                    PageStep::Create
                }
            },
        }
    }

    /// Opens the page without closing it where it is active.
    pub fn open(pane_items: &Vec<Option<u64>>, pages: &Vec<u64>) -> (r: PageStep)
        ensures
            r == open_step(pane_items@, pages@),
    {
        match find_page(pane_items) {
            Some(existing) => PageStep::Activate(existing),
            None => {
                if pages.len() > 0 {
                    PageStep::Activate(pages[0])
                } else {
                    PageStep::Create
                }
            },
        }
    }

    /// Opens the page and loads a thread with the focus, where the workspace has an agent panel.
    pub fn open_and_load_thread<T>(
        pane_items: &Vec<Option<u64>>,
        pages: &Vec<u64>,
        has_panel: bool,
        thread: T,
    ) -> (r: OpenAndLoadStep<T>)
        ensures
            r.page == open_step(pane_items@, pages@),
            r.load == (if has_panel {
                ThreadLoad::Thread { thread, focus: true }
            } else {
                ThreadLoad::Nothing
            }),
    {
        let page: PageStep = Self::open(pane_items, pages);
        if has_panel {
            OpenAndLoadStep { page, load: ThreadLoad::Thread { thread, focus: true } }
        } else {
            OpenAndLoadStep { page, load: ThreadLoad::Nothing }
        }
    }

    /// Begins to open a thread in the panel. The panel is to load it, under its agent, in its
    /// folders and with its title, and to be followed then.
    pub fn open_thread(&mut self, metadata: &ThreadMetadata, focus: bool, scene: PanelScene) -> (r:
        LoadStep)
        ensures
            old(self).wf() ==> final(self).wf(),
            *final(self) == old(self).turned_to_panel(scene),
            r.panel == old(self).panel_step(scene),
            match r.load {
                ThreadLoad::Thread { thread, focus: focused } => {
                    &&& scene.reached() is Some
                    &&& thread@ == metadata@.to_load()
                    &&& focused == focus
                },
                ThreadLoad::NewThread { .. } => false,
                ThreadLoad::Nothing => scene.reached() is None,
            },
    {
        let panel: Option<PanelStep> = self.ensure_panel_subscription(scene);
        let load: ThreadLoad<ThreadToLoad> = if panel.is_some() {
            let thread: ThreadToLoad = ThreadToLoad {
                thread_id: metadata.thread_id,
                agent_id: metadata.agent_id.clone(),
                work_dirs: Some(metadata.folder_paths.clone()),
                title: clone_text(&metadata.title),
            };
            ThreadLoad::Thread { thread, focus }
        } else {
            ThreadLoad::Nothing
        };
        LoadStep { panel, load }
    }

    /// Begins a new thread in the panel. The panel is to activate it, with the focus, and to be
    /// followed then.
    pub fn new_thread(&mut self, scene: PanelScene) -> (r: LoadStep)
        ensures
            old(self).wf() ==> final(self).wf(),
            *final(self) == old(self).turned_to_panel(scene),
            r.panel == old(self).panel_step(scene),
            r.load == (if scene.reached() is Some {
                ThreadLoad::<ThreadToLoad>::NewThread { focus: true }
            } else {
                ThreadLoad::<ThreadToLoad>::Nothing
            }),
    {
        let panel: Option<PanelStep> = self.ensure_panel_subscription(scene);
        let load: ThreadLoad<ThreadToLoad> = if panel.is_some() {
            ThreadLoad::NewThread { focus: true }
        } else {
            ThreadLoad::Nothing
        };
        LoadStep { panel, load }
    }

    /// The selected thread, where the history lists it.
    pub open spec fn selected_thread(&self) -> Option<ThreadView> {
        match self.selected_thread_id {
            Some(thread_id) => match self.history_index(thread_id) {
                Some(i) => Some(self.history_items@[i as int]@),
                None => None,
            },
            None => None,
        }
    }

    /// The selected thread, where the history lists it: what removing the selected thread
    /// deletes.
    pub fn remove_selected_thread(&self) -> (r: Option<ThreadMetadata>)
        ensures
            r is Some == self.selected_thread() is Some,
            r matches Some(thread) ==> self.selected_thread() == Some(thread@),
    {
        match self.selected_thread_id {
            Some(thread_id) => match self.find_in_history(thread_id) {
                Some(i) => Some(self.history_items[i].clone()),
                None => None,
            },
            None => None,
        }
    }

    /// What deleting a thread does.
    pub open spec fn delete_plan(
        metadata: &ThreadMetadata,
        has_panel: bool,
        has_store: bool,
    ) -> DeletePlan {
        DeletePlan {
            thread_id: metadata.thread_id,
            remove_from_panel: has_panel,
            delete_from_store: !has_panel && has_store,
            connect_to: if has_panel {
                Some(metadata.agent_id)
            } else {
                None
            },
            session_id: metadata.session_id,
        }
    }

    /// The page once the thread is deleted.
    pub open spec fn without_thread(&self, thread_id: ThreadId) -> AgentPage {
        if self.selected_thread_id == Some(thread_id) {
            self.following(None)
        } else {
            *self
        }
    }

    /// Deletes a thread; a page that shows it shows no conversation then.
    pub fn delete_thread(
        &mut self,
        metadata: &ThreadMetadata,
        has_panel: bool,
        has_store: bool,
    ) -> (r: DeletePlan)
        ensures
            old(self).wf() ==> final(self).wf(),
            r == Self::delete_plan(metadata, has_panel, has_store),
            *final(self) == old(self).without_thread(metadata.thread_id),
    {
        let is_selected: bool = match self.selected_thread_id {
            Some(id) => id == metadata.thread_id,
            None => false,
        };
        if is_selected {
            self.selected_thread_id = None;
            self.conversation_view = None;
        }
        DeletePlan {
            thread_id: metadata.thread_id,
            remove_from_panel: has_panel,
            delete_from_store: !has_panel && has_store,
            connect_to: if has_panel {
                Some(metadata.agent_id.clone())
            } else {
                None
            },
            session_id: clone_text(&metadata.session_id),
        }
    }

    /// What the pointer does to the hovered item: it comes to item `index`, or leaves it.
    pub open spec fn hovered_after(&self, index: usize, is_hovered: bool) -> Option<usize> {
        if is_hovered {
            Some(index)
        } else if self.hovered_history_index == Some(index) {
            None
        } else {
            self.hovered_history_index
        }
    }

    /// The pointer comes to item `index`, or leaves it. Says whether the page changed.
    pub fn on_hover(&mut self, index: usize, is_hovered: bool) -> (changed: bool)
        ensures
            old(self).wf() && index < old(self).history_items@.len() ==> final(self).wf(),
            *final(self) == (AgentPage {
                hovered_history_index: old(self).hovered_after(index, is_hovered),
                ..*old(self)
            }),
            changed == (old(self).hovered_after(index, is_hovered)
                != old(self).hovered_history_index),
    {
        let was_here: bool = match self.hovered_history_index {
            Some(i) => i == index,
            None => false,
        };
        if is_hovered {
            self.hovered_history_index = Some(index);
            !was_here
        } else if was_here {
            self.hovered_history_index = None;
            true
        } else {
            false
        }
    }

    /// Once the pointer has come to an item and left it, nothing is hovered.
    pub proof fn leaving_ends_hovering(&self, index: usize)
        ensures
            (AgentPage {
                hovered_history_index: self.hovered_after(index, true),
                ..*self
            }).hovered_after(index, false) is None,
    {
    }

    /// This is what the history shows of thread `index`; nothing where there is none.
    pub open spec fn shows_item(&self, index: usize, r: Option<HistoryItem>) -> bool {
        &&& r is Some == (index < self.history_items@.len())
        &&& r matches Some(item) ==> {
            let thread = self.history_items@[index as int];
            &&& item.item_id@ == "agent-page-thread-"@ + thread.key@
            &&& item.menu_id@ == "agent-page-thread-menu-"@ + thread.key@
            &&& item.title@ == thread.display_title@
            &&& item.updated_at == thread.updated_at
            &&& item.icon == (match thread.agent {
                AgentKind::Native => ThreadIcon::ZedAgent,
                AgentKind::Custom => ThreadIcon::Sparkle,
                AgentKind::Stub => ThreadIcon::ZedAgent,
            })
            &&& item.selected == (self.selected_thread_id == Some(thread.thread_id))
            &&& item.hovered == (self.hovered_history_index == Some(index))
        }
    }

    /// What the history shows of thread `index`; nothing where there is none.
    pub fn render_history_item(&self, index: usize) -> (r: Option<HistoryItem>)
        ensures
            self.shows_item(index, r),
    {
        if index >= self.history_items.len() {
            return None;
        }
        let thread: &ThreadMetadata = &self.history_items[index];
        let selected: bool = match self.selected_thread_id {
            Some(id) => id == thread.thread_id,
            None => false,
        };
        let hovered: bool = match self.hovered_history_index {
            Some(i) => i == index,
            None => false,
        };
        let icon: ThreadIcon = match thread.agent {
            AgentKind::Native => ThreadIcon::ZedAgent,
            AgentKind::Custom => ThreadIcon::Sparkle,
            AgentKind::Stub => ThreadIcon::ZedAgent,
        };
        Some(
            HistoryItem {
                item_id: "agent-page-thread-".to_owned().concat(thread.key.as_str()),
                menu_id: "agent-page-thread-menu-".to_owned().concat(thread.key.as_str()),
                title: thread.display_title.clone(),
                updated_at: thread.updated_at,
                icon,
                selected,
                hovered,
            },
        )
    }

    /// The view that has the focus of the page: the conversation, where one is shown.
    pub fn focus_handle(&self) -> (r: Option<u64>)
        ensures
            r == self.conversation_view,
    {
        self.conversation_view
    }

    /// What the page shows.
    pub fn render(&self) -> (r: PagePlan)
        ensures
            r == (PagePlan {
                history_count: self.history_items@.len() as usize,
                conversation: self.conversation_view,
            }),
    {
        PagePlan {
            history_count: self.history_items.len(),
            conversation: self.conversation_view,
        }
    }
}

/// The button that opens the agent page; it is on while the page is the active item.
#[derive(Debug)]
pub struct AgentPageButton {
    pub active: bool,
}

impl AgentPageButton {
    pub fn new() -> (r: Self)
        ensures
            !r.active,
    {
        AgentPageButton { active: false }
    }

    /// Takes in whether the active item is an agent page. Says whether the button changed.
    pub fn set_active_pane_item(&mut self, is_agent_page: bool) -> (changed: bool)
        ensures
            final(self).active == is_agent_page,
            changed == (old(self).active != is_agent_page),
    {
        if self.active != is_agent_page {
            self.active = is_agent_page;
            true
        } else {
            false
        }
    }
}

impl Default for AgentPageButton {
    fn default() -> (r: Self)
        ensures
            !r.active,
    {
        Self::new()
    }
}

} // verus!
