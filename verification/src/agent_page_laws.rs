//! What holds of the agent page: which threads its history lists, what it shows and what its
//! actions do.
use crate::agent_page;
use crate::agent_page::{
    AgentKind, AgentPage, AgentPanelEvent, Conversation, DeletePlan, DeletionProgress,
    DeletionStepView, HistoryItem, PageStep, PanelScene, ThreadIcon, ThreadId, ThreadMetadata,
    ThreadView,
};
use crate::model::Timestamp;
use crate::seqs;
use vstd::prelude::*;

verus! {

/// `a` is at or before `b`: by the seconds, and within a second by the nanoseconds.
pub open spec fn at_or_before(a: Timestamp, b: Timestamp) -> bool {
    if a.seconds == b.seconds {
        a.nanoseconds <= b.nanoseconds
    } else {
        a.seconds < b.seconds
    }
}

proof fn lemma_newest_first()
    ensures
        seqs::is_preorder(agent_page::newest_first()),
{
    let le = agent_page::newest_first();
    assert forall|a: ThreadView, b: ThreadView| #[trigger] le(a, b) || le(b, a) by {}
    assert forall|a: ThreadView, b: ThreadView, c: ThreadView| #[trigger]
        le(a, b) && #[trigger] le(b, c) implies le(a, c) by {}
}

/// A thread of the store is in the history exactly as often as in the store, unless it is
/// archived: then it is not there. Nothing else about it counts.
pub proof fn threads_are_in_the_history_unless_archived(threads: Seq<ThreadView>, t: ThreadView)
    ensures
        !t.archived ==> agent_page::history(Some(threads)).to_multiset().count(t)
            == threads.to_multiset().count(t),
        t.archived ==> agent_page::history(Some(threads)).to_multiset().count(t) == 0,
        agent_page::history(None).len() == 0,
{
    let p = agent_page::not_archived();
    lemma_newest_first();
    seqs::lemma_stable_sort(threads.filter(p), agent_page::newest_first());
    seqs::lemma_filter_count(threads, p, t);
}

/// The store is looked at as it is: all its threads, in order.
pub proof fn stores_are_seen_whole(threads: &Vec<ThreadMetadata>, i: int)
    ensures
        agent_page::store_view(None) is None,
        agent_page::store_view(Some(threads)) is Some,
        agent_page::store_view(Some(threads))->0.len() == threads@.len(),
        0 <= i < threads@.len() ==> agent_page::store_view(Some(threads))->0[i] == threads@[i]@,
{
}

/// A later item of the history was not updated after an earlier one; items that were updated at
/// the same time stand as in the store.
pub proof fn history_goes_back_in_time(threads: Seq<ThreadView>, i: int, j: int) -> (x: (int, int))
    requires
        0 <= i < j < agent_page::history(Some(threads)).len(),
    ensures
        0 <= x.0 < threads.len(),
        0 <= x.1 < threads.len(),
        threads[x.0] == agent_page::history(Some(threads))[i],
        threads[x.1] == agent_page::history(Some(threads))[j],
        at_or_before(threads[x.1].updated_at, threads[x.0].updated_at),
        threads[x.0].updated_at == threads[x.1].updated_at ==> x.0 < x.1,
{
    let p = agent_page::not_archived();
    let kept = threads.filter(p);
    lemma_newest_first();
    let (a, b) = seqs::lemma_stable_sort_order(kept, agent_page::newest_first(), i, j);
    if a < b {
        seqs::lemma_filter_came_in_order(threads, p, a, b)
    } else {
        let (y, x) = seqs::lemma_filter_came_in_order(threads, p, b, a);
        (x, y)
    }
}

/// A page that shows no conversation begins with a thread of the store that is not archived, and
/// than which no other such thread was updated later; it begins with none only where there is
/// none.
pub proof fn pages_begin_with_the_newest_thread(
    page: &AgentPage,
    threads: Seq<ThreadView>,
    t: ThreadView,
)
    requires
        seqs::views(page.history_items@) == agent_page::history(Some(threads)),
        page.conversation_view is None,
        threads.contains(t),
        !t.archived,
    ensures
        page.first_thread() is Some,
        threads.contains(page.first_thread()->0),
        !page.first_thread()->0.archived,
        at_or_before(t.updated_at, page.first_thread()->0.updated_at),
{
    let all = agent_page::history(Some(threads));
    threads.to_multiset_ensures();
    all.to_multiset_ensures();
    threads_are_in_the_history_unless_archived(threads, t);
    assert(threads.to_multiset().count(t) > 0);
    assert(all.contains(t));
    let k = choose|k: int| 0 <= k < all.len() && all[k] == t;
    let first = all[0];
    assert(seqs::views(page.history_items@)[0] == page.history_items@[0]@);
    threads_are_in_the_history_unless_archived(threads, first);
    assert(all.contains(first));
    assert(all.to_multiset().count(first) > 0);
    assert(threads.contains(first));
    if k > 0 {
        let x = history_goes_back_in_time(threads, 0, k);
    }
}

/// While a conversation is shown a page begins with no other thread.
pub proof fn shown_conversations_stay(page: &AgentPage)
    requires
        page.conversation_view is Some || page.history_items@.len() == 0,
    ensures
        page.first_thread() is None,
{
}

/// The page shows the thread and the view that the panel shows, or nothing where it shows
/// nothing; nothing else changes. It changes exactly where the thread or the view is another one.
pub proof fn pages_show_what_the_panel_shows(page: &AgentPage, shown: Option<Conversation>)
    ensures
        ({
            let after = page.following(shown);
            &&& shown is Some ==> after.selected_thread_id == Some(shown->0.thread_id)
                && after.conversation_view == Some(shown->0.view)
            &&& shown is None ==> after.selected_thread_id is None && after.conversation_view
                is None
            &&& after.history_items == page.history_items
            &&& after.hovered_history_index == page.hovered_history_index
            &&& after.panel_subscribed == page.panel_subscribed
            &&& page.sync_step(shown).changed <==> after.selected_thread_id
                != page.selected_thread_id || after.conversation_view != page.conversation_view
        }),
{
}

/// A thread that comes to be shown is scrolled to at the first item of the history with its key;
/// to nothing where there is no such item, and where nothing changes.
pub proof fn shown_threads_are_revealed(page: &AgentPage, c: Conversation, i: int)
    requires
        page.selected_thread_id != Some(c.thread_id) || page.conversation_view != Some(c.view),
    ensures
        0 <= i < page.history_items@.len() && page.history_items@[i].thread_id == c.thread_id && (
        forall|j: int| 0 <= j < i ==> (#[trigger] page.history_items@[j]).thread_id != c.thread_id)
            ==> page.sync_step(Some(c)).reveal == Some(i as usize),
        (forall|j: int|
            0 <= j < page.history_items@.len() ==> (#[trigger] page.history_items@[j]).thread_id
                != c.thread_id) ==> page.sync_step(Some(c)).reveal is None,
        page.sync_step(None).reveal is None,
{
    let p = |t: ThreadMetadata| t.thread_id == c.thread_id;
    if 0 <= i < page.history_items@.len() && page.history_items@[i].thread_id == c.thread_id && (
    forall|j: int| 0 <= j < i ==> (#[trigger] page.history_items@[j]).thread_id != c.thread_id) {
        assert(seqs::is_first(page.history_items@, p, i));
        seqs::lemma_first_index_is(page.history_items@, p, i);
    }
    if forall|j: int|
        0 <= j < page.history_items@.len() ==> (#[trigger] page.history_items@[j]).thread_id
            != c.thread_id {
        seqs::lemma_first_index_none(page.history_items@, p);
    }
}

/// Turning to a panel that can be reached follows it and listens to it from then on; it is
/// subscribed to the first time only. A panel that cannot be reached changes nothing.
pub proof fn panels_are_followed_where_they_are_reached(page: &AgentPage, scene: PanelScene)
    ensures
        scene.workspace_alive && scene.panel is Some ==> {
            let after = page.turned_to_panel(scene);
            &&& after.panel_subscribed
            &&& after == (AgentPage { panel_subscribed: true, ..page.following(scene.panel->0) })
            &&& page.panel_step(scene) is Some
            &&& page.panel_step(scene)->0.subscribe <==> !page.panel_subscribed
            &&& page.panel_step(scene)->0.sync == page.sync_step(scene.panel->0)
            &&& !after.panel_step(scene)->0.subscribe
        },
        !scene.workspace_alive || scene.panel is None ==> page.turned_to_panel(scene) == *page
            && page.panel_step(scene) is None,
{
}

/// The panel is reached exactly where the workspace is alive and has one.
pub proof fn panels_are_reached_in_live_workspaces(scene: PanelScene)
    ensures
        scene.reached() is Some <==> scene.workspace_alive && scene.panel is Some,
        scene.reached() is Some ==> scene.reached()->0 == scene.panel->0,
{
}

/// Between calls the list has an item for each thread of the history, what is hovered is one of
/// them, and a conversation is shown exactly while a thread is selected.
pub proof fn pages_are_kept_in_order(page: &AgentPage)
    requires
        page.wf(),
    ensures
        page.history_list_len == page.history_items@.len(),
        page.hovered_history_index is Some ==> page.hovered_history_index->0
            < page.history_items@.len(),
        page.selected_thread_id is Some <==> page.conversation_view is Some,
{
}

/// The panel loads the thread under its own key and agent, in its own folders and with its own
/// title.
pub proof fn threads_are_loaded_as_they_are_known(t: ThreadView)
    ensures
        t.to_load().thread_id == t.thread_id,
        t.to_load().agent_id == t.agent_id,
        t.to_load().work_dirs == Some(t.folder_paths),
        t.to_load().title == t.title,
{
}

/// Opening the page turns to the first page of the active pane, or else to the first of the
/// workspace; one is created only where there is none. Toggling differs from it only where that
/// page of the pane is the active item: then it is closed.
pub proof fn pages_are_found_before_they_are_created(
    pane_items: &Vec<Option<u64>>,
    active_item: Option<u64>,
    pages: Seq<u64>,
    i: int,
)
    ensures
        0 <= i < pane_items@.len() && pane_items@[i] is Some && (forall|j: int|
            0 <= j < i ==> (#[trigger] pane_items@[j]) is None) ==> {
            let page = pane_items@[i]->0;
            &&& agent_page::open_step(pane_items@, pages) == PageStep::Activate(page)
            &&& agent_page::toggle_step(pane_items@, active_item, pages) == (if active_item
                == Some(page) {
                PageStep::CloseActive
            } else {
                PageStep::Activate(page)
            })
        },
        (forall|j: int| 0 <= j < pane_items@.len() ==> (#[trigger] pane_items@[j]) is None) ==> {
            &&& agent_page::toggle_step(pane_items@, active_item, pages) == agent_page::open_step(
                pane_items@,
                pages,
            )
            &&& pages.len() > 0 ==> agent_page::open_step(pane_items@, pages)
                == PageStep::Activate(pages[0])
            &&& pages.len() == 0 ==> agent_page::open_step(pane_items@, pages) == PageStep::Create
        },
{
    let p = agent_page::is_page();
    assert(pane_items@.len() == pane_items.len());
    if 0 <= i < pane_items@.len() && pane_items@[i] is Some && (forall|j: int|
        0 <= j < i ==> (#[trigger] pane_items@[j]) is None) {
        assert(seqs::is_first(pane_items@, p, i));
        seqs::lemma_first_index_is(pane_items@, p, i);
    }
    if forall|j: int| 0 <= j < pane_items@.len() ==> (#[trigger] pane_items@[j]) is None {
        seqs::lemma_first_index_none(pane_items@, p);
    }
}

/// Removing the selected thread takes the first item of the history with its key; nothing where
/// no thread is selected or the history does not list it.
pub proof fn the_selected_thread_is_removed(page: &AgentPage, i: int)
    ensures
        page.selected_thread_id is Some && 0 <= i < page.history_items@.len()
            && page.history_items@[i].thread_id == page.selected_thread_id->0 && (forall|j: int|
            0 <= j < i ==> (#[trigger] page.history_items@[j]).thread_id
                != page.selected_thread_id->0) ==> page.selected_thread() == Some(
            page.history_items@[i]@,
        ),
        page.selected_thread_id is None || (forall|j: int|
            0 <= j < page.history_items@.len() ==> (#[trigger] page.history_items@[j]).thread_id
                != page.selected_thread_id->0) ==> page.selected_thread() is None,
{
    if page.selected_thread_id is Some {
        let id = page.selected_thread_id->0;
        let p = |t: ThreadMetadata| t.thread_id == id;
        assert(page.history_items@.len() == page.history_items.len());
        if 0 <= i < page.history_items@.len() && page.history_items@[i].thread_id == id && (
        forall|j: int| 0 <= j < i ==> (#[trigger] page.history_items@[j]).thread_id != id) {
            assert(seqs::is_first(page.history_items@, p, i));
            seqs::lemma_first_index_is(page.history_items@, p, i);
        }
        if forall|j: int|
            0 <= j < page.history_items@.len() ==> (#[trigger] page.history_items@[j]).thread_id
                != id {
            seqs::lemma_first_index_none(page.history_items@, p);
        }
    }
}

/// A deleted thread goes from the panel, or from the store where there is no panel, never from
/// both; its agent is connected to exactly where there is a panel. The conversation ends exactly
/// where it was that thread's.
pub proof fn threads_are_deleted_where_they_are(
    page: &AgentPage,
    t: &ThreadMetadata,
    has_panel: bool,
    has_store: bool,
)
    ensures
        ({
            let plan = AgentPage::delete_plan(t, has_panel, has_store);
            let after = page.without_thread(t.thread_id);
            &&& plan.thread_id == t.thread_id
            &&& plan.session_id == t.session_id
            &&& plan.remove_from_panel <==> has_panel
            &&& plan.delete_from_store <==> has_store && !has_panel
            &&& plan.connect_to is Some <==> has_panel
            &&& has_panel ==> plan.connect_to->0 == t.agent_id
            &&& page.selected_thread_id != Some(t.thread_id) ==> after == *page
            &&& after.selected_thread_id != Some(t.thread_id)
            &&& page.selected_thread_id == Some(t.thread_id) ==> after.selected_thread_id is None
                && after.conversation_view is None && after.history_items == page.history_items
                && after.panel_subscribed == page.panel_subscribed
        }),
{
}

/// The pointer hovers over the item that it came to; leaving an item ends that, and leaves
/// another item alone.
pub proof fn the_pointer_hovers_where_it_is(page: &AgentPage, index: usize, other: usize)
    ensures
        page.hovered_after(index, true) == Some(index),
        page.hovered_history_index == Some(index) ==> page.hovered_after(index, false) is None,
        page.hovered_history_index != Some(index) ==> page.hovered_after(index, false)
            == page.hovered_history_index,
{
}

/// The history shows each thread under its own title and time, with the key in the names of its
/// parts; the selected and the hovered one are marked, and a star marks custom agents.
pub proof fn items_show_their_thread(page: &AgentPage, index: usize, r: Option<HistoryItem>)
    requires
        page.shows_item(index, r),
    ensures
        r is None <==> index >= page.history_items@.len(),
        r is Some ==> {
            let item = r->0;
            let t = page.history_items@[index as int];
            let id_start = "agent-page-thread-"@;
            let menu_start = "agent-page-thread-menu-"@;
            &&& item.item_id@.len() == 18 + t.key@.len()
            &&& item.item_id@.skip(18) == t.key@
            &&& item.item_id@.take(18) == id_start
            &&& item.menu_id@.len() == 23 + t.key@.len()
            &&& item.menu_id@.skip(23) == t.key@
            &&& item.menu_id@.take(23) == menu_start
            &&& item.title@ == t.display_title@
            &&& item.updated_at == t.updated_at
            &&& item.icon == ThreadIcon::Sparkle <==> t.agent == AgentKind::Custom
            &&& item.selected <==> page.selected_thread_id is Some && page.selected_thread_id->0
                == t.thread_id
            &&& item.hovered <==> page.hovered_history_index is Some
                && page.hovered_history_index->0 == index
        },
{
    if r is Some {
        let t = page.history_items@[index as int];
        reveal_strlit("agent-page-thread-");
        reveal_strlit("agent-page-thread-menu-");
        assert(r->0.item_id@.skip(18) =~= t.key@);
        assert(r->0.item_id@.take(18) =~= "agent-page-thread-"@);
        assert(r->0.menu_id@.skip(23) =~= t.key@);
        assert(r->0.menu_id@.take(23) =~= "agent-page-thread-menu-"@);
    }
}

/// A thread is looked at as it is: every field, and every character of its texts.
pub proof fn threads_are_seen_whole(t: ThreadMetadata)
    ensures
        t@.thread_id == t.thread_id,
        t@.key == t.key@,
        t@.session_id is Some == t.session_id is Some,
        t.session_id is Some ==> t@.session_id->0 == t.session_id->0@,
        t@.agent_id == t.agent_id@,
        t@.agent == t.agent,
        t@.folder_paths == t.folder_paths@,
        t@.title is Some == t.title is Some,
        t.title is Some ==> t@.title->0 == t.title->0@,
        t@.display_title == t.display_title@,
        t@.updated_at == t.updated_at,
        t@.archived == t.archived,
{
}

/// The page follows the panel on every event but those that leave its active view alone: a closed
/// terminal and an interaction with a thread.
pub proof fn pages_follow_changes_of_the_view(event: AgentPanelEvent)
    ensures
        event.followed() <==> event != AgentPanelEvent::TerminalCloseRequested && event
            != AgentPanelEvent::ThreadInteracted,
{
}

/// A deletion first cleans up the working trees of its thread, then waits for a connection where
/// one was asked for. Over a connection it deletes the session of the thread, where there is one
/// and the agent is known to let sessions be deleted; without one it ends.
pub proof fn deletions_go_step_by_step(plan: &DeletePlan, supports_delete: Option<bool>)
    ensures
        plan.step_at(DeletionProgress::Begun) == DeletionStepView::CleanUpWorktrees(
            plan.thread_id,
        ),
        plan.step_at(DeletionProgress::CleanedUp) is WaitForConnection <==> plan.connect_to
            is Some,
        plan.step_at(DeletionProgress::CleanedUp) is Done <==> plan.connect_to is None,
        plan.step_at(DeletionProgress::ConnectionFailed) is Done,
        ({
            let step = plan.step_at(DeletionProgress::Connected { supports_delete });
            &&& step is DeleteSession <==> plan.session_id is Some && supports_delete is Some
                && supports_delete->0
            &&& step is DeleteSession ==> step->DeleteSession_0 == plan.session_id->0@
            &&& !(step is DeleteSession) ==> step is Done
        }),
{
}

} // verus!
