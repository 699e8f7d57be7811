//! The agent page and its button.
use recent_projects::agent_page::{
    AgentKind, AgentPage, AgentPageButton, AgentPanelEvent, Conversation, DeletePlan,
    DeletionProgress, DeletionStep, OpenAndLoadStep, PagePlan, PageStep, PanelScene, PanelStep,
    SyncStep, ThreadIcon, ThreadId, ThreadLoad, ThreadMetadata,
};
use recent_projects::model::Timestamp;
use recent_projects::path::{PathComponent, PathList, ProjectPath};

fn folder(name: &str) -> ProjectPath {
    ProjectPath {
        raw: name.as_bytes().to_vec(),
        components: vec![PathComponent::Normal(name.as_bytes().to_vec())],
        text: name.to_string(),
        compact: name.to_string(),
        compact_file_name: Some(name.to_string()),
    }
}

fn thread(id: u128, seconds: i64, nanoseconds: u32, archived: bool) -> ThreadMetadata {
    ThreadMetadata {
        thread_id: ThreadId(id),
        key: format!("t{id}"),
        session_id: None,
        agent_id: format!("agent-{id}"),
        agent: AgentKind::Native,
        folder_paths: PathList {
            paths: vec![folder("a"), folder("b")],
            ordered_paths: vec![folder("b"), folder("a")],
        },
        title: Some(format!("Given title {id}")),
        display_title: format!("Thread {id}"),
        updated_at: Timestamp { seconds, nanoseconds },
        archived,
    }
}

fn ids(page: &AgentPage) -> Vec<u128> {
    page.history_items.iter().map(|item| item.thread_id.0).collect()
}

fn store() -> Vec<ThreadMetadata> {
    vec![
        thread(1, 100, 0, false),
        thread(2, 300, 5, false),
        thread(3, 200, 0, true),
        thread(4, 300, 9, false),
        thread(5, 100, 0, false),
        thread(6, -1, 999, false),
    ]
}

#[test]
fn history_is_newest_first_without_archived_threads() {
    let page = AgentPage::new(Some(&store()));
    assert_eq!(ids(&page), [4, 2, 1, 5, 6]);
    assert_eq!(page.history_list_len, 5);
    assert_eq!(page.selected_thread_id, None);
    assert!(!page.panel_subscribed);
    assert!(AgentPage::new(None).history_items.is_empty());
}

#[test]
fn a_new_page_opens_the_newest_thread() {
    let mut page = AgentPage::new(Some(&store()));
    let first = page.initial_thread().expect("the history has threads");
    assert_eq!(first.thread_id, ThreadId(4));
    assert_eq!(first.agent_id, "agent-4");
    page.sync_from_panel(Some(Conversation { view: 1, thread_id: ThreadId(2) }));
    assert!(page.initial_thread().is_none());
    assert!(AgentPage::new(None).initial_thread().is_none());
}

#[test]
fn refreshing_drops_a_hover_that_is_out_of_range() {
    let mut page = AgentPage::new(Some(&store()));
    page.on_hover(4, true);
    page.refresh_history(Some(&store()));
    assert_eq!(page.hovered_history_index, Some(4));
    page.refresh_history(Some(&vec![thread(1, 0, 0, false)]));
    assert_eq!(page.hovered_history_index, None);
    assert_eq!(ids(&page), [1]);
    page.on_hover(0, true);
    page.refresh_history(None);
    assert_eq!(page.hovered_history_index, None);
    assert_eq!(page.history_list_len, 0);
}

#[test]
fn following_the_panel_reveals_its_thread_once() {
    let mut page = AgentPage::new(Some(&store()));
    let shown = Some(Conversation { view: 7, thread_id: ThreadId(1) });
    assert_eq!(page.sync_from_panel(shown), SyncStep { changed: true, reveal: Some(2) });
    assert_eq!(page.selected_thread_id, Some(ThreadId(1)));
    assert_eq!(page.conversation_view, Some(7));
    assert_eq!(page.focus_handle(), Some(7));
    assert_eq!(page.sync_from_panel(shown), SyncStep { changed: false, reveal: None });
    let unlisted = Some(Conversation { view: 8, thread_id: ThreadId(3) });
    assert_eq!(page.sync_from_panel(unlisted), SyncStep { changed: true, reveal: None });
    let other_view = Some(Conversation { view: 9, thread_id: ThreadId(3) });
    assert_eq!(page.sync_from_panel(other_view), SyncStep { changed: true, reveal: None });
    assert_eq!(page.sync_from_panel(None), SyncStep { changed: true, reveal: None });
    assert_eq!(page.focus_handle(), None);
}

#[test]
fn the_panel_is_subscribed_to_once() {
    let mut page = AgentPage::new(None);
    let gone = PanelScene { workspace_alive: false, panel: Some(None) };
    let bare = PanelScene { workspace_alive: true, panel: None };
    let quiet = PanelScene { workspace_alive: true, panel: Some(None) };
    assert_eq!(page.ensure_panel_subscription(gone), None);
    assert_eq!(page.ensure_panel_subscription(bare), None);
    assert!(!page.panel_subscribed);
    let unchanged = SyncStep { changed: false, reveal: None };
    assert_eq!(
        page.ensure_panel_subscription(quiet),
        Some(PanelStep { subscribe: true, sync: unchanged })
    );
    assert_eq!(
        page.ensure_panel_subscription(quiet),
        Some(PanelStep { subscribe: false, sync: unchanged })
    );
}

#[test]
fn only_some_events_are_followed() {
    let shown = Some(Conversation { view: 1, thread_id: ThreadId(9) });
    for event in [
        AgentPanelEvent::ActiveViewChanged,
        AgentPanelEvent::ActiveViewFocused,
        AgentPanelEvent::EntryChanged,
    ] {
        let mut page = AgentPage::new(None);
        assert!(page.on_panel_event(event, shown).unwrap().changed);
        assert_eq!(page.conversation_view, Some(1));
    }
    for event in [AgentPanelEvent::TerminalCloseRequested, AgentPanelEvent::ThreadInteracted] {
        let mut page = AgentPage::new(None);
        assert_eq!(page.on_panel_event(event, shown), None);
        assert_eq!(page.conversation_view, None);
    }
}

#[test]
fn toggling_closes_an_active_page() {
    let pane = vec![None, Some(5), Some(6)];
    assert_eq!(AgentPage::open_or_toggle(&pane, Some(5), &vec![5, 6]), PageStep::CloseActive);
    assert_eq!(AgentPage::open_or_toggle(&pane, Some(6), &vec![5, 6]), PageStep::Activate(5));
    assert_eq!(AgentPage::open_or_toggle(&pane, None, &vec![5, 6]), PageStep::Activate(5));
    assert_eq!(AgentPage::open_or_toggle(&vec![None], None, &vec![8, 9]), PageStep::Activate(8));
    assert_eq!(AgentPage::open_or_toggle(&vec![None], None, &Vec::new()), PageStep::Create);
}

#[test]
fn opening_never_closes_a_page() {
    assert_eq!(AgentPage::open(&vec![Some(5)], &vec![5]), PageStep::Activate(5));
    assert_eq!(AgentPage::open(&Vec::new(), &vec![7]), PageStep::Activate(7));
    assert_eq!(AgentPage::open(&Vec::new(), &Vec::new()), PageStep::Create);
    assert_eq!(
        AgentPage::open_and_load_thread(&vec![Some(5)], &vec![5], true, "t"),
        OpenAndLoadStep {
            page: PageStep::Activate(5),
            load: ThreadLoad::Thread { thread: "t", focus: true },
        }
    );
    assert_eq!(
        AgentPage::open_and_load_thread(&Vec::new(), &Vec::new(), false, "t"),
        OpenAndLoadStep { page: PageStep::Create, load: ThreadLoad::Nothing }
    );
}

#[test]
fn threads_are_loaded_in_the_panel() {
    let mut page = AgentPage::new(Some(&store()));
    let shown = Conversation { view: 2, thread_id: ThreadId(5) };
    let scene = PanelScene { workspace_alive: true, panel: Some(Some(shown)) };
    let step = page.open_thread(&store()[0], true, scene);
    assert_eq!(
        step.panel,
        Some(PanelStep { subscribe: true, sync: SyncStep { changed: true, reveal: Some(3) } })
    );
    match step.load {
        ThreadLoad::Thread { thread, focus } => {
            assert!(focus);
            assert_eq!(thread.thread_id, ThreadId(1));
            assert_eq!(thread.agent_id, "agent-1");
            assert_eq!(thread.title.as_deref(), Some("Given title 1"));
            let dirs = thread.work_dirs.expect("the folders of the thread are known");
            let shown: Vec<&str> =
                dirs.ordered_paths.iter().map(|path| path.text.as_str()).collect();
            assert_eq!(shown, ["b", "a"]);
            assert!(dirs.same_paths(&store()[0].folder_paths));
        }
        _ => panic!("the thread should be loaded"),
    }
    let mut untitled = thread(9, 0, 0, false);
    untitled.title = None;
    assert!(matches!(
        page.open_thread(&untitled, false, scene).load,
        ThreadLoad::Thread { thread, focus: false } if thread.title.is_none()
    ));
    assert!(matches!(page.new_thread(scene).load, ThreadLoad::NewThread { focus: true }));
    let gone = PanelScene { workspace_alive: false, panel: Some(Some(shown)) };
    let step = page.new_thread(gone);
    assert!(step.panel.is_none() && matches!(step.load, ThreadLoad::Nothing));
    let step = page.open_thread(&store()[0], false, gone);
    assert!(step.panel.is_none() && matches!(step.load, ThreadLoad::Nothing));
}

#[test]
fn deleting_the_selected_thread_ends_its_conversation() {
    let mut page = AgentPage::new(Some(&store()));
    assert!(page.remove_selected_thread().is_none());
    page.sync_from_panel(Some(Conversation { view: 2, thread_id: ThreadId(5) }));
    assert_eq!(page.remove_selected_thread().unwrap().thread_id, ThreadId(5));
    let mut other = thread(1, 100, 0, false);
    other.session_id = Some("s".to_string());
    assert_eq!(
        page.delete_thread(&other, true, true),
        DeletePlan {
            thread_id: ThreadId(1),
            remove_from_panel: true,
            delete_from_store: false,
            connect_to: Some("agent-1".to_string()),
            session_id: Some("s".to_string()),
        }
    );
    assert_eq!(page.selected_thread_id, Some(ThreadId(5)));
    let selected = thread(5, 100, 0, false);
    assert_eq!(
        page.delete_thread(&selected, false, true),
        DeletePlan {
            thread_id: ThreadId(5),
            remove_from_panel: false,
            delete_from_store: true,
            connect_to: None,
            session_id: None,
        }
    );
    assert_eq!(page.selected_thread_id, None);
    assert_eq!(page.conversation_view, None);
    assert!(!page.delete_thread(&selected, false, false).delete_from_store);
    page.sync_from_panel(Some(Conversation { view: 2, thread_id: ThreadId(3) }));
    assert!(page.remove_selected_thread().is_none());
}

/// The steps that run in the background of a deletion.
fn steps_of(plan: &DeletePlan, connecting: DeletionProgress) -> Vec<DeletionStep> {
    let mut steps = Vec::new();
    let mut progress = DeletionProgress::Begun;
    loop {
        let step = plan.next_step(progress);
        progress = match step {
            DeletionStep::CleanUpWorktrees(_) => DeletionProgress::CleanedUp,
            DeletionStep::WaitForConnection => connecting,
            DeletionStep::DeleteSession(_) | DeletionStep::Done => {
                steps.push(step);
                return steps;
            }
        };
        steps.push(step);
    }
}

fn connected(supports_delete: Option<bool>) -> DeletionProgress {
    DeletionProgress::Connected { supports_delete }
}

#[test]
fn worktrees_are_cleaned_up_whatever_comes_of_connecting() {
    let mut page = AgentPage::new(Some(&store()));
    let mut thread = thread(1, 100, 0, false);
    thread.session_id = Some("s".to_string());
    for has_panel in [false, true] {
        let plan = page.delete_thread(&thread, has_panel, true);
        for connecting in [
            DeletionProgress::ConnectionFailed,
            connected(None),
            connected(Some(false)),
            connected(Some(true)),
        ] {
            let steps = steps_of(&plan, connecting);
            assert_eq!(steps[0], DeletionStep::CleanUpWorktrees(ThreadId(1)));
            let cleanups =
                steps.iter().filter(|step| matches!(step, DeletionStep::CleanUpWorktrees(_)));
            assert_eq!(cleanups.count(), 1);
        }
    }
}

#[test]
fn sessions_are_deleted_where_the_agent_allows_it() {
    let mut page = AgentPage::new(Some(&store()));
    let mut thread = thread(1, 100, 0, false);
    let clean_up = || DeletionStep::CleanUpWorktrees(ThreadId(1));
    let without_session = page.delete_thread(&thread, true, true);
    assert_eq!(
        steps_of(&without_session, connected(Some(true))),
        [clean_up(), DeletionStep::WaitForConnection, DeletionStep::Done]
    );
    thread.session_id = Some("s".to_string());
    let plan = page.delete_thread(&thread, true, true);
    assert_eq!(
        steps_of(&plan, connected(Some(true))),
        [
            clean_up(),
            DeletionStep::WaitForConnection,
            DeletionStep::DeleteSession("s".to_string())
        ]
    );
    for connecting in
        [DeletionProgress::ConnectionFailed, connected(None), connected(Some(false))]
    {
        assert_eq!(
            steps_of(&plan, connecting),
            [clean_up(), DeletionStep::WaitForConnection, DeletionStep::Done]
        );
    }
    let without_panel = page.delete_thread(&thread, false, true);
    assert_eq!(
        steps_of(&without_panel, connected(Some(true))),
        [clean_up(), DeletionStep::Done]
    );
}

#[test]
fn leaving_an_item_ends_its_hover_only() {
    let mut page = AgentPage::new(Some(&store()));
    assert!(page.on_hover(1, true));
    assert!(!page.on_hover(1, true));
    assert!(page.on_hover(2, true));
    assert!(!page.on_hover(1, false));
    assert_eq!(page.hovered_history_index, Some(2));
    assert!(page.on_hover(2, false));
    assert_eq!(page.hovered_history_index, None);
}

#[test]
fn history_items_show_their_thread() {
    let mut threads = store();
    threads[3].agent = AgentKind::Custom;
    threads[1].agent = AgentKind::Stub;
    let mut page = AgentPage::new(Some(&threads));
    page.on_hover(0, true);
    page.sync_from_panel(Some(Conversation { view: 2, thread_id: ThreadId(2) }));
    let newest = page.render_history_item(0).unwrap();
    assert_eq!(newest.item_id, "agent-page-thread-t4");
    assert_eq!(newest.menu_id, "agent-page-thread-menu-t4");
    assert_eq!(newest.title, "Thread 4");
    assert_eq!(newest.icon, ThreadIcon::Sparkle);
    assert_eq!(newest.updated_at, Timestamp { seconds: 300, nanoseconds: 9 });
    assert!(newest.hovered && !newest.selected);
    let second = page.render_history_item(1).unwrap();
    assert_eq!(second.icon, ThreadIcon::ZedAgent);
    assert!(second.selected && !second.hovered);
    assert_eq!(page.render_history_item(2).unwrap().icon, ThreadIcon::ZedAgent);
    assert!(page.render_history_item(5).is_none());
    assert_eq!(page.render(), PagePlan { history_count: 5, conversation: Some(2) });
}

#[test]
fn the_button_is_on_while_the_page_is_active() {
    let mut button = AgentPageButton::new();
    assert!(!button.active);
    assert!(button.set_active_pane_item(true));
    assert!(button.active);
    assert!(!button.set_active_pane_item(true));
    assert!(button.set_active_pane_item(false));
    assert!(!AgentPageButton::default().active);
}
