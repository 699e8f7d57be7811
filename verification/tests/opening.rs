//! What rows and the footer show, and what confirming a row opens.
use recent_projects::actions::{
    add_wsl_distro, open_dev_container, open_folder_in_wsl, open_recent, open_remote,
    reuses_requesting_window, OpenDevContainerStep, OpenInWslStep, OpenRecentStep, OpenRemoteStep,
    PickedPath, WslConnection, WslPath,
};
use recent_projects::confirm::{
    open_local_project, ConfirmEffect, ConfirmOutcome, GroupActivation, LocalOpening, Surroundings,
};
use recent_projects::delegate::RecentProjectsDelegate;
use recent_projects::footer::{
    ActionsMenuItem, FolderOpening, FooterAction, FooterPlan, ModalFooter, PopoverButton,
};
use recent_projects::listing::MatchResults;
use recent_projects::model::{
    FolderEdit, OpenFolderEntry, ProjectFolder, ProjectFolderAssignment, ProjectFolderId,
    ProjectGroupKey, ProjectPickerEntry, ProjectPickerStyle, RecentWorkspace, RemoteConnection,
    RemoteKind, SerializedWorkspaceLocation, StringMatch, Timestamp, WorkspaceId, WorktreeId,
};
use recent_projects::path::{PathComponent, PathList, ProjectPath};
use recent_projects::picker::{
    default_open_in_new_window, DefaultOpenBehavior, MenuState, MenuToggle, RecentProjects,
};
use recent_projects::rows::{
    icon_for_remote_connection, FolderContent, IconName, RowPlan, TargetWindow,
};

fn project_path(text: &str) -> ProjectPath {
    let mut components = vec![PathComponent::RootDir];
    let names: Vec<&str> = text.split('/').filter(|name| !name.is_empty()).collect();
    components.extend(names.iter().map(|name| PathComponent::Normal(name.as_bytes().to_vec())));
    ProjectPath {
        raw: text.as_bytes().to_vec(),
        components,
        text: text.to_string(),
        compact: text.to_string(),
        compact_file_name: names.last().map(|name| name.to_string()),
    }
}

fn path_list(texts: &[&str]) -> PathList {
    let mut sorted: Vec<&str> = texts.to_vec();
    sorted.sort();
    PathList {
        paths: sorted.iter().map(|text| project_path(text)).collect(),
        ordered_paths: texts.iter().map(|text| project_path(text)).collect(),
    }
}

fn host(kind: RemoteKind, name: &str) -> RemoteConnection {
    RemoteConnection {
        kind,
        options: name.len() as u64,
        identity: name.len() as u64,
        persistence_key: format!("key-{name}"),
        display_name: name.to_string(),
    }
}

fn workspace(id: i64, location: SerializedWorkspaceLocation, texts: &[&str]) -> RecentWorkspace {
    RecentWorkspace {
        workspace_id: WorkspaceId(id),
        location,
        paths: path_list(texts),
        identity_paths: path_list(texts),
        timestamp: Timestamp { seconds: 0, nanoseconds: 0 },
    }
}

fn local() -> SerializedWorkspaceLocation {
    SerializedWorkspaceLocation::Local
}

fn remote(kind: RemoteKind, name: &str) -> SerializedWorkspaceLocation {
    SerializedWorkspaceLocation::Remote(host(kind, name))
}

fn no_matches() -> MatchResults {
    MatchResults {
        open_folders: Vec::new(),
        project_groups: Vec::new(),
        recents: Vec::new(),
        folder_names: Vec::new(),
    }
}

fn group(text: &str) -> ProjectGroupKey {
    ProjectGroupKey::new(None, path_list(&[text]))
}

// The rows:
//
//   [0] Header("Current Folders")
//   [1] OpenFolder(0)
//   [2] Header("This Window")
//   [3] ProjectGroup(0), local
//   [4] ProjectGroup(1), remote
//   [5] Folder("Work")
//   [6] RecentProject(1)
//   [7] Header("Ungrouped")
//   [8] RecentProject(0), local
//   [9] RecentProject(2), remote
//   [10] NewFolder, in the modal
//
fn picker(style: ProjectPickerStyle, create_new_window: bool) -> RecentProjectsDelegate {
    let mut delegate = RecentProjectsDelegate::new(
        create_new_window,
        vec![OpenFolderEntry {
            worktree_id: WorktreeId(40),
            name: "site".into(),
            path: project_path("/home/me/site"),
            branch: Some("main".into()),
            is_active: true,
            connection_options: None,
        }],
        vec![
            group("/w/one"),
            ProjectGroupKey::new(Some(host(RemoteKind::Ssh, "far")), path_list(&["/w/two"])),
        ],
        style,
    );
    delegate.set_workspaces(vec![
        workspace(10, local(), &["/r/zero"]),
        workspace(11, local(), &["/r/one", "/r/uno"]),
        workspace(12, remote(RemoteKind::Ssh, "box"), &["/r/two"]),
    ]);
    delegate.set_folders(
        vec![
            ProjectFolder { folder_id: ProjectFolderId(1), name: "Work".into(), position: 0 },
        ],
        vec![ProjectFolderAssignment {
            folder_id: ProjectFolderId(1),
            remote_identity: String::new(),
            identity_paths: path_list(&["/r/one", "/r/uno"]),
            position: 0,
        }],
    );
    delegate.update_matches("", &no_matches(), None);
    delegate
}

fn scene() -> Surroundings {
    Surroundings { workspace_alive: true, current: None, in_multi_workspace: true }
}

fn confirm_at(ix: usize, secondary: bool, scene: Surroundings) -> ConfirmOutcome {
    let mut delegate = picker(ProjectPickerStyle::Modal, false);
    delegate.set_selected_index(ix);
    delegate.confirm(secondary, scene)
}

fn outcome(effect: ConfirmEffect, dismiss: bool) -> ConfirmOutcome {
    ConfirmOutcome { effect, dismiss }
}

#[test]
fn the_picker_under_test_has_the_rows_above() {
    let delegate = picker(ProjectPickerStyle::Modal, false);
    assert_eq!(delegate.match_count(), 11);
    assert!(matches!(&delegate.filtered_entries[5], ProjectPickerEntry::Folder { .. }));
    assert!(matches!(
        &delegate.filtered_entries[6],
        ProjectPickerEntry::RecentProject(hit) if hit.candidate_id == 1
    ));
    assert!(matches!(
        &delegate.filtered_entries[9],
        ProjectPickerEntry::RecentProject(hit) if hit.candidate_id == 2
    ));
}

#[test]
fn confirming_an_open_folder_activates_its_repository() {
    assert_eq!(
        confirm_at(1, false, scene()),
        outcome(ConfirmEffect::ActivateRepository(WorktreeId(40)), true)
    );
    assert_eq!(
        confirm_at(1, false, Surroundings { workspace_alive: false, ..scene() }),
        outcome(ConfirmEffect::Nothing, true)
    );
}

#[test]
fn confirming_a_group_activates_or_moves_it() {
    assert_eq!(confirm_at(3, false, scene()), outcome(ConfirmEffect::ActivateGroup(0), true));
    assert_eq!(
        confirm_at(3, true, scene()),
        outcome(ConfirmEffect::MoveGroupToNewWindow(0), true)
    );
    assert_eq!(confirm_at(4, true, scene()), outcome(ConfirmEffect::ActivateGroup(1), true));
    assert_eq!(
        confirm_at(3, true, Surroundings { in_multi_workspace: false, ..scene() }),
        outcome(ConfirmEffect::Nothing, true)
    );
}

#[test]
fn the_only_group_of_a_window_is_not_moved() {
    let mut delegate = picker(ProjectPickerStyle::Modal, false);
    delegate.window_project_groups.truncate(1);
    delegate.set_selected_index(3);
    assert_eq!(
        delegate.confirm(true, scene()),
        outcome(ConfirmEffect::ActivateGroup(0), true)
    );
    delegate.set_selected_index(4);
    assert_eq!(delegate.confirm(false, scene()), outcome(ConfirmEffect::Nothing, false));
}

#[test]
fn confirming_a_recent_project_opens_it() {
    assert_eq!(confirm_at(8, false, scene()), outcome(ConfirmEffect::OpenHere(0), true));
    assert_eq!(confirm_at(8, true, scene()), outcome(ConfirmEffect::OpenInNewWindow(0), true));
    assert_eq!(
        confirm_at(8, false, Surroundings { in_multi_workspace: false, ..scene() }),
        outcome(ConfirmEffect::Nothing, true)
    );
    assert_eq!(
        confirm_at(8, false, Surroundings { current: Some(WorkspaceId(10)), ..scene() }),
        outcome(ConfirmEffect::Nothing, true)
    );
    assert_eq!(
        confirm_at(8, false, Surroundings { workspace_alive: false, ..scene() }),
        outcome(ConfirmEffect::Nothing, false)
    );
}

#[test]
fn confirming_a_remote_project_connects() {
    assert_eq!(
        confirm_at(9, false, scene()),
        outcome(
            ConfirmEffect::OpenRemote { workspace: 2, reuse_window: true, fill_from_settings: true },
            true
        )
    );
    assert_eq!(
        confirm_at(9, true, scene()),
        outcome(
            ConfirmEffect::OpenRemote {
                workspace: 2,
                reuse_window: false,
                fill_from_settings: true
            },
            true
        )
    );
    let mut delegate = picker(ProjectPickerStyle::Modal, true);
    delegate.set_workspaces(vec![workspace(1, remote(RemoteKind::Wsl, "pc"), &["/x"])]);
    assert_eq!(
        delegate.open_recent_projects(0, true, scene()),
        outcome(
            ConfirmEffect::OpenRemote {
                workspace: 0,
                reuse_window: true,
                fill_from_settings: false
            },
            true
        )
    );
    assert_eq!(
        delegate.open_recent_projects(1, true, scene()),
        outcome(ConfirmEffect::Nothing, false)
    );
}

#[test]
fn primary_and_secondary_choose_different_windows() {
    for create_new_window in [false, true] {
        let delegate = picker(ProjectPickerStyle::Modal, create_new_window);
        assert_ne!(delegate.window_for(false), delegate.window_for(true));
    }
    let delegate = picker(ProjectPickerStyle::Modal, true);
    assert_eq!(delegate.window_for(false), TargetWindow::New);
}

#[test]
fn confirming_a_folder_confirms_its_first_project() {
    let mut delegate = picker(ProjectPickerStyle::Modal, false);
    delegate.set_selected_index(5);
    assert_eq!(delegate.confirm(false, scene()), confirm_at(6, false, scene()));
    assert_eq!(delegate.selected_index, 6);
}

#[test]
fn a_folder_without_projects_opens_nothing() {
    let mut delegate = picker(ProjectPickerStyle::Modal, false);
    delegate.folders_changed(
        vec![ProjectFolder { folder_id: ProjectFolderId(9), name: "Empty".into(), position: 0 }],
        Vec::new(),
    );
    delegate.update_matches("", &no_matches(), None);
    delegate.set_selected_index(5);
    assert_eq!(delegate.confirm(false, scene()), outcome(ConfirmEffect::Nothing, false));
    assert_eq!(delegate.selected_index, 5);
}

#[test]
fn a_secondary_confirm_renames_a_folder() {
    let mut delegate = picker(ProjectPickerStyle::Modal, false);
    delegate.set_selected_index(5);
    assert_eq!(
        delegate.confirm(true, scene()),
        outcome(ConfirmEffect::AskForNewName("Work".into()), false)
    );
    assert_eq!(delegate.folder_edit, Some(FolderEdit::Rename(ProjectFolderId(1))));
    assert_eq!(delegate.confirm(false, scene()), outcome(ConfirmEffect::Nothing, false));
}

#[test]
fn confirming_the_last_row_creates_a_folder() {
    let mut delegate = picker(ProjectPickerStyle::Modal, false);
    delegate.set_selected_index(10);
    assert_eq!(delegate.confirm(false, scene()), outcome(ConfirmEffect::AskForName, false));
    assert!(delegate.is_creating_folder());
    assert_eq!(delegate.confirm(false, scene()), outcome(ConfirmEffect::Nothing, false));
    delegate.set_selected_index(100);
    assert_eq!(delegate.confirm(false, scene()), outcome(ConfirmEffect::Nothing, false));
    delegate.set_selected_index(0);
    assert_eq!(delegate.confirm(false, scene()), outcome(ConfirmEffect::Nothing, false));
}

fn remote_project_group(index: u64) -> ProjectGroupKey {
    ProjectGroupKey::new(
        Some(RemoteConnection {
            kind: RemoteKind::Mock,
            options: index,
            identity: index,
            persistence_key: format!("mock:{index}"),
            display_name: format!("mock-{index}"),
        }),
        path_list(&[&format!("/this-window/remote-project-{index}")]),
    )
}

#[test]
fn test_remote_project_group_confirm_does_not_create_local_workspace() {
    let groups = vec![group("/local")];
    let remote_group = groups.len();
    let mut augmented_groups = groups;
    augmented_groups.push(remote_project_group(1));
    let mut popover = RecentProjects::popover(
        Some(Vec::new()),
        augmented_groups,
        Some(false),
        DefaultOpenBehavior::ExistingWindow,
    );
    let delegate = &mut popover.picker;
    delegate.update_matches("", &no_matches(), None);
    let remote_idx = delegate
        .filtered_entries
        .iter()
        .position(|entry| {
            matches!(entry, ProjectPickerEntry::ProjectGroup(m) if m.candidate_id == remote_group)
        })
        .expect("remote project group entry should exist");
    delegate.set_selected_index(remote_idx);
    assert_eq!(
        delegate.confirm(false, scene()),
        outcome(ConfirmEffect::ActivateGroup(remote_group), true)
    );
    match delegate.activate_group(remote_group, true, false) {
        GroupActivation::FindOrCreate { paths, host } => {
            let host = host.expect("remote project group confirm should not create a local workspace");
            assert_eq!(host.kind, RemoteKind::Mock);
            assert_eq!(host.options, 1);
            assert_eq!(paths.paths.len(), 1);
            assert_eq!(paths.paths[0].text, "/this-window/remote-project-1");
        }
        _ => panic!("a workspace should be found or created on the host"),
    }
}

#[test]
fn an_open_group_is_activated_where_it_is() {
    let delegate = picker(ProjectPickerStyle::Popover, false);
    assert!(matches!(delegate.activate_group(1, true, true), GroupActivation::ActivateExisting));
    assert!(matches!(delegate.activate_group(1, false, true), GroupActivation::Nothing));
    assert!(matches!(delegate.activate_group(2, true, true), GroupActivation::Nothing));
}

#[test]
fn test_open_local_project_reuses_multi_workspace_window() {
    assert_eq!(open_local_project(true, true, false, true), LocalOpening::Here);
    assert_eq!(open_local_project(true, true, false, false), LocalOpening::NewWindow);
}

#[test]
fn test_open_local_project_new_window_creates_new_window() {
    assert_eq!(open_local_project(true, true, true, true), LocalOpening::NewWindow);
    assert_eq!(open_local_project(true, false, true, true), LocalOpening::Nothing);
    assert_eq!(open_local_project(false, true, true, true), LocalOpening::Nothing);
}

#[test]
fn test_open_dev_container_action_with_single_config() {
    assert_eq!(open_dev_container(true), OpenDevContainerStep::ShowConfigs);
    assert_eq!(
        open_dev_container(false),
        OpenDevContainerStep::Refuse("Cannot open Dev Container from remote project")
    );
}

#[test]
fn header_rows_are_divided_from_what_is_above() {
    let delegate = picker(ProjectPickerStyle::Modal, false);
    for (ix, divided) in [(0, false), (2, true)] {
        match delegate.render_match(ix, false, &None) {
            Some(RowPlan::Header { divider, .. }) => assert_eq!(divider, divided),
            _ => panic!("a header stands here"),
        }
    }
    assert!(delegate.render_match(11, false, &None).is_none());
    assert!(matches!(delegate.render_match(10, true, &None), Some(RowPlan::NewFolder)));
}

#[test]
fn open_folder_rows_show_path_or_tooltip() {
    let modal = picker(ProjectPickerStyle::Modal, false);
    match modal.render_match(1, true, &None) {
        Some(RowPlan::OpenFolder(row)) => {
            assert_eq!(row.worktree_id, WorktreeId(40));
            assert_eq!(row.path.as_deref(), Some("/home/me/site"));
            assert!(row.tooltip.is_none());
            assert_eq!(row.icon, Some(IconName::Screen));
            assert_eq!(row.branch.as_deref(), Some("main"));
            assert!(row.is_active);
            assert!(!row.actions_on_hover);
        }
        _ => panic!("an open folder stands here"),
    }
    let popover = picker(ProjectPickerStyle::Popover, false);
    match popover.render_match(1, false, &None) {
        Some(RowPlan::OpenFolder(row)) => {
            assert_eq!(row.path, None);
            let tooltip = row.tooltip.unwrap();
            assert_eq!(tooltip.title.as_deref(), Some("site/main"));
            assert_eq!(tooltip.text, "/home/me/site");
            assert!(row.actions_on_hover);
        }
        _ => panic!("an open folder stands here"),
    }
}

#[test]
fn group_rows_show_what_can_be_done() {
    let delegate = picker(ProjectPickerStyle::Modal, false);
    match delegate.render_match(3, false, &Some(group("/w/one"))) {
        Some(RowPlan::ProjectGroup(row)) => {
            assert_eq!(row.group, 0);
            assert!(row.project.active);
            assert_eq!(row.project.labels[0].text, "one");
            assert_eq!(row.project.paths[0].text, "/w/one");
            assert_eq!(row.tooltip, "/w/one");
            assert!(row.move_to_new_window);
            let button = row.move_to_folder.unwrap();
            assert_eq!(button.current_folder, None);
            assert_eq!(button.pending.remote_identity, "");
        }
        _ => panic!("a group stands here"),
    }
    match delegate.render_match(4, false, &None) {
        Some(RowPlan::ProjectGroup(row)) => {
            assert_eq!(row.icon, Some(IconName::Server));
            assert!(!row.project.active);
            assert!(!row.move_to_new_window);
            assert_eq!(row.move_to_folder.unwrap().pending.remote_identity, "key-far");
        }
        _ => panic!("a group stands here"),
    }
}

#[test]
fn recent_rows_show_hosts_and_windows() {
    let delegate = picker(ProjectPickerStyle::Modal, false);
    match delegate.render_match(6, false, &None) {
        Some(RowPlan::RecentProject(row)) => {
            assert_eq!(row.workspace, 1);
            assert_eq!(row.tooltip, "/r/one\n/r/uno");
            assert_eq!(row.project.prefix, None);
            let add = row.add_to_project.unwrap();
            assert_eq!(add.title, "Add Folders to this Project");
            assert_eq!(add.paths.len(), 2);
            assert_eq!(row.primary, TargetWindow::This);
            assert_eq!(row.primary.confirm_tooltip(), "Open Project in This Window");
            assert_eq!(row.secondary.confirm_tooltip(), "Open Project in New Window");
            assert_eq!(row.secondary.confirm_icon(), IconName::ArrowUpRight);
            assert_eq!(row.move_to_folder.unwrap().current_folder, Some(ProjectFolderId(1)));
        }
        _ => panic!("a recent project stands here"),
    }
    match delegate.render_match(8, false, &None) {
        Some(RowPlan::RecentProject(row)) => {
            assert_eq!(row.add_to_project.unwrap().title, "Add Folder to this Project");
        }
        _ => panic!("a recent project stands here"),
    }
    match delegate.render_match(9, false, &None) {
        Some(RowPlan::RecentProject(row)) => {
            assert_eq!(row.tooltip, "/r/two (box)");
            assert_eq!(row.project.prefix.as_deref(), Some("box"));
            assert!(row.add_to_project.is_none());
        }
        _ => panic!("a recent project stands here"),
    }
    let new_window = picker(ProjectPickerStyle::Popover, true);
    match new_window.render_match(6, false, &None) {
        Some(RowPlan::RecentProject(row)) => {
            assert_eq!(row.secondary.confirm_icon(), IconName::ThisWindow);
            assert!(row.project.paths.is_empty());
            assert_eq!(row.project.labels.len(), 2);
            assert!(row.move_to_folder.is_none());
        }
        _ => panic!("a recent project stands here"),
    }
}

#[test]
fn several_remote_paths_have_the_host_below() {
    let mut delegate = picker(ProjectPickerStyle::Modal, false);
    delegate.set_workspaces(vec![workspace(1, remote(RemoteKind::Docker, "c"), &["/a", "/b"])]);
    delegate.set_folders(Vec::new(), Vec::new());
    delegate.update_matches("", &no_matches(), None);
    match delegate.render_match(6, false, &None) {
        Some(RowPlan::RecentProject(row)) => {
            assert_eq!(row.tooltip, "/a\n/b\n(c)");
            assert_eq!(row.icon, Some(IconName::Container));
        }
        _ => panic!("a recent project stands here"),
    }
}

#[test]
fn matched_bytes_are_highlighted_path_by_path() {
    let mut delegate = picker(ProjectPickerStyle::Modal, false);
    delegate.filtered_entries = vec![ProjectPickerEntry::RecentProject(StringMatch {
        candidate_id: 1,
        positions: vec![1, 3, 5, 7, 9],
        string: String::new(),
    })];
    assert!(delegate.can_render_match(0));
    match delegate.render_match(0, false, &None) {
        Some(RowPlan::RecentProject(row)) => {
            assert_eq!(row.project.paths[0].highlight_positions, [1, 3, 5]);
            assert_eq!(row.project.labels[0].highlight_positions, [0, 2]);
            assert_eq!(row.project.paths[1].highlight_positions, [1, 3]);
            assert_eq!(row.project.labels[1].highlight_positions, [0]);
        }
        _ => panic!("a recent project stands here"),
    }
    delegate.filtered_entries = vec![ProjectPickerEntry::RecentProject(StringMatch {
        candidate_id: 1,
        positions: vec![7, 1],
        string: String::new(),
    })];
    assert!(!delegate.can_render_match(0));
    assert!(delegate.can_render_match(1));
}

#[test]
fn folder_rows_show_the_editor_while_edited() {
    let mut delegate = picker(ProjectPickerStyle::Modal, false);
    match delegate.render_match(5, true, &None) {
        Some(RowPlan::Folder(row)) => {
            assert!(matches!(row.content, FolderContent::Name(name) if name == "Work"));
            assert!(row.divider && row.actions && !row.actions_on_hover);
        }
        _ => panic!("a folder stands here"),
    }
    delegate.start_rename_folder(ProjectFolderId(1));
    delegate.folder_edit_error = Some("no".into());
    match delegate.render_match(5, false, &None) {
        Some(RowPlan::Folder(row)) => {
            assert!(matches!(
                row.content,
                FolderContent::Editor { error: Some(error) } if error == "no"
            ));
            assert!(!row.actions && !row.actions_on_hover);
        }
        _ => panic!("a folder stands here"),
    }
}

#[test]
fn hosts_have_icons() {
    assert_eq!(icon_for_remote_connection(&None), IconName::Screen);
    for (kind, icon) in [
        (RemoteKind::Ssh, IconName::Server),
        (RemoteKind::Wsl, IconName::Linux),
        (RemoteKind::Docker, IconName::Container),
        (RemoteKind::Mock, IconName::Server),
    ] {
        assert_eq!(icon_for_remote_connection(&Some(host(kind, "h"))), icon);
    }
}

#[test]
fn icons_are_shown_once_a_remote_project_is_listed() {
    let mut delegate = picker(ProjectPickerStyle::Modal, false);
    delegate.window_project_groups.truncate(1);
    delegate.set_workspaces(Vec::new());
    delegate.update_matches("", &no_matches(), None);
    match delegate.render_match(1, false, &None) {
        Some(RowPlan::OpenFolder(row)) => assert_eq!(row.icon, None),
        _ => panic!("an open folder stands here"),
    }
}

fn open_local(create_new_window: bool) -> FolderOpening {
    FolderOpening::Local { in_new_window: create_new_window }
}

fn open_remote_folder(create_new_window: bool) -> FolderOpening {
    FolderOpening::Remote {
        from_existing_connection: false,
        create_new_window: Some(create_new_window),
    }
}

fn footer_at(
    delegate: &mut RecentProjectsDelegate,
    ix: usize,
    active: &Option<ProjectGroupKey>,
) -> ModalFooter {
    delegate.set_selected_index(ix);
    match delegate.render_footer(active) {
        FooterPlan::Modal(footer) => footer,
        FooterPlan::Popover(_) => panic!("the modal has a footer of its own"),
    }
}

fn buttons(footer: &ModalFooter) -> Vec<(&'static str, FooterAction)> {
    footer
        .edit_buttons
        .iter()
        .chain(footer.open_buttons.iter())
        .map(|button| (button.label, button.action))
        .collect()
}

#[test]
fn the_footer_offers_what_the_row_allows() {
    let mut delegate = picker(ProjectPickerStyle::Modal, false);
    assert_eq!(
        buttons(&footer_at(&mut delegate, 1, &None)),
        [("Remove Folder", FooterAction::RemoveSelected), ("Activate", FooterAction::Confirm)]
    );
    assert_eq!(
        buttons(&footer_at(&mut delegate, 3, &None)),
        [
            ("Remove from Window", FooterAction::RemoveSelected),
            ("New Window", FooterAction::MoveToNewWindow(0)),
            ("Activate", FooterAction::Confirm)
        ]
    );
    assert_eq!(
        buttons(&footer_at(&mut delegate, 3, &Some(group("/w/one")))),
        [
            ("New Window", FooterAction::MoveToNewWindow(0)),
            ("Activate", FooterAction::Confirm)
        ]
    );
    assert_eq!(
        buttons(&footer_at(&mut delegate, 4, &None)),
        [
            ("Remove from Window", FooterAction::RemoveSelected),
            ("Activate", FooterAction::Confirm)
        ]
    );
    assert_eq!(
        buttons(&footer_at(&mut delegate, 5, &None)),
        [("Rename", FooterAction::RenameFolder), ("Remove Folder", FooterAction::RemoveSelected)]
    );
    assert_eq!(
        buttons(&footer_at(&mut delegate, 8, &None)),
        [
            ("Remove", FooterAction::RemoveSelected),
            ("New Window", FooterAction::SecondaryConfirm),
            ("Open", FooterAction::Confirm)
        ]
    );
    assert!(buttons(&footer_at(&mut delegate, 10, &None)).is_empty());
    let mut delegate = picker(ProjectPickerStyle::Modal, true);
    assert_eq!(
        buttons(&footer_at(&mut delegate, 99, &None)),
        [("This Window", FooterAction::SecondaryConfirm), ("Open", FooterAction::Confirm)]
    );
}

#[test]
fn the_actions_menu_follows_the_selection() {
    let mut delegate = picker(ProjectPickerStyle::Modal, false);
    assert_eq!(
        footer_at(&mut delegate, 8, &None).menu,
        [
            ActionsMenuItem::NewFolder,
            ActionsMenuItem::MoveToFolder,
            ActionsMenuItem::Separator,
            ActionsMenuItem::AddToProject,
            ActionsMenuItem::Separator,
            ActionsMenuItem::OpenFolders(open_local(false)),
            ActionsMenuItem::OpenFolders(open_remote_folder(false)),
        ]
    );
    assert_eq!(
        footer_at(&mut delegate, 5, &None).menu,
        [
            ActionsMenuItem::NewFolder,
            ActionsMenuItem::RenameFolder,
            ActionsMenuItem::Separator,
            ActionsMenuItem::OpenFolders(open_local(false)),
            ActionsMenuItem::OpenFolders(open_remote_folder(false)),
        ]
    );
    assert_eq!(footer_at(&mut delegate, 9, &None).menu.len(), 5);
    let footer = footer_at(&mut delegate, 6, &None);
    assert_eq!(footer.move_to_folder.unwrap().current_folder, Some(ProjectFolderId(1)));
    assert!(footer_at(&mut delegate, 1, &None).move_to_folder.is_none());
    assert_eq!(ActionsMenuItem::NewFolder.label(), "New Folder…");
    assert_eq!(ActionsMenuItem::AddToProject.label(), "Add Folder to this Project");
    assert_eq!(ActionsMenuItem::OpenFolders(open_local(true)).label(), "Open Local Folders");
    assert_eq!(ActionsMenuItem::OpenFolders(open_remote_folder(true)).label(), "Open Remote Folder");
}

#[test]
fn the_popover_opens_folders_whatever_is_selected() {
    for create_new_window in [false, true] {
        let mut delegate = picker(ProjectPickerStyle::Popover, create_new_window);
        for ix in 0..=delegate.match_count() {
            delegate.set_selected_index(ix);
            match delegate.render_footer(&None) {
                FooterPlan::Popover(buttons) => assert_eq!(
                    buttons,
                    [
                        PopoverButton {
                            label: "Open Local Folders",
                            opening: open_local(create_new_window),
                        },
                        PopoverButton {
                            label: "Open Remote Folder",
                            opening: open_remote_folder(create_new_window),
                        },
                    ]
                ),
                FooterPlan::Modal(_) => panic!("the popover has a footer of its own"),
            }
        }
    }
}

#[test]
fn pickers_open_as_asked_or_as_the_settings_say() {
    let existing = DefaultOpenBehavior::ExistingWindow;
    let new = DefaultOpenBehavior::NewWindow;
    assert!(!default_open_in_new_window(existing));
    assert!(default_open_in_new_window(new));
    let modal = RecentProjects::open(None, new, Vec::new(), vec![group("/g")]);
    assert!(modal.picker.create_new_window);
    assert!(modal.picker.render_paths);
    assert_eq!(modal.initial_width(), 42);
    assert_eq!(modal.picker.window_project_groups.len(), 1);
    let popover = RecentProjects::popover(None, Vec::new(), Some(false), new);
    assert!(!popover.picker.create_new_window);
    assert!(!popover.picker.render_paths);
    assert_eq!(popover.initial_width(), 20);
    assert!(popover.picker.open_folders.is_empty());
    let folder = OpenFolderEntry {
        worktree_id: WorktreeId(1),
        name: "n".into(),
        path: project_path("/n"),
        branch: None,
        is_active: false,
        connection_options: None,
    };
    let popover = RecentProjects::popover(Some(vec![folder]), Vec::new(), None, existing);
    assert_eq!(popover.picker.open_folders.len(), 1);
    assert!(!popover.picker.create_new_window);
}

const IDLE: MenuState = MenuState {
    actions_focused: false,
    actions_deployed: false,
    move_to_folder_focused: false,
    move_to_folder_deployed: false,
    footer_move_to_folder_focused: false,
    footer_move_to_folder_deployed: false,
    name_editor_focused: false,
};

#[test]
fn an_open_menu_keeps_the_picker_open() {
    let mut picker = RecentProjects { picker: picker(ProjectPickerStyle::Modal, false) };
    assert!(picker.on_before_dismiss(IDLE));
    for busy in [
        MenuState { actions_focused: true, ..IDLE },
        MenuState { actions_deployed: true, ..IDLE },
        MenuState { move_to_folder_focused: true, ..IDLE },
        MenuState { move_to_folder_deployed: true, ..IDLE },
        MenuState { footer_move_to_folder_focused: true, ..IDLE },
        MenuState { footer_move_to_folder_deployed: true, ..IDLE },
        MenuState { name_editor_focused: true, ..IDLE },
    ] {
        assert!(!picker.on_before_dismiss(busy));
    }
    picker.handle_new_folder();
    assert!(picker.picker.has_another_open_menu(IDLE));
    assert!(!picker.on_before_dismiss(IDLE));
    assert_eq!(picker.handle_toggle_open_menu(true), MenuToggle::Hide);
    assert_eq!(picker.handle_toggle_open_menu(false), MenuToggle::Show);
}

#[test]
fn only_the_popover_closes_without_the_focus() {
    let modal = RecentProjects { picker: picker(ProjectPickerStyle::Modal, false) };
    let popover = RecentProjects { picker: picker(ProjectPickerStyle::Popover, false) };
    assert!(!modal.on_focus_out(false));
    assert!(popover.on_focus_out(false));
    assert!(!popover.on_focus_out(true));
}

#[test]
fn loading_fills_the_picker() {
    let mut picker = RecentProjects::open(
        Some(true),
        DefaultOpenBehavior::ExistingWindow,
        Vec::new(),
        Vec::new(),
    );
    picker.loaded(
        vec![workspace(1, local(), &["/a"])],
        vec![ProjectFolder { folder_id: ProjectFolderId(3), name: "F".into(), position: 0 }],
        Vec::new(),
    );
    assert_eq!(picker.picker.workspaces.len(), 1);
    assert_eq!(picker.picker.folders.len(), 1);
}

#[test]
fn only_local_projects_are_added_to_the_active_one() {
    let mut picker = RecentProjects { picker: picker(ProjectPickerStyle::Modal, false) };
    picker.picker.set_selected_index(6);
    let added = picker.handle_add_to_workspace().unwrap();
    assert_eq!(added.iter().map(|path| path.text.as_str()).collect::<Vec<_>>(), [
        "/r/one", "/r/uno"
    ]);
    for ix in [0, 3, 5, 9, 10, 11] {
        picker.picker.set_selected_index(ix);
        assert!(picker.handle_add_to_workspace().is_none());
    }
}

#[test]
fn opening_recent_projects_twice_moves_the_selection() {
    assert!(matches!(
        open_recent(false, Some(vec![group("/g")])),
        OpenRecentStep::Open(groups) if groups.len() == 1
    ));
    assert!(matches!(open_recent(false, None::<Vec<ProjectGroupKey>>), OpenRecentStep::Open(groups) if groups.is_empty()));
    assert!(matches!(open_recent(true, None::<Vec<u8>>), OpenRecentStep::CycleSelection));
}

#[test]
fn existing_connections_are_left_to_others() {
    let new = DefaultOpenBehavior::NewWindow;
    assert_eq!(open_remote(true, None, new), OpenRemoteStep::Propagate);
    assert_eq!(
        open_remote(false, None, new),
        OpenRemoteStep::ShowServers { create_new_window: true }
    );
    assert_eq!(
        open_remote(false, Some(false), new),
        OpenRemoteStep::ShowServers { create_new_window: false }
    );
    assert!(reuses_requesting_window(false, true));
    assert!(!reuses_requesting_window(true, true));
    assert!(!reuses_requesting_window(false, false));
}

fn picked(wsl: Option<(&str, &str)>, local_to_wsl: Option<&str>) -> PickedPath {
    PickedPath {
        wsl: wsl.map(|(distro, path)| WslPath { distro: distro.into(), path: path.into() }),
        local_to_wsl: local_to_wsl.map(|path| path.to_string()),
    }
}

#[test]
fn folders_are_opened_inside_a_distribution() {
    assert_eq!(open_folder_in_wsl(&None, false, true), OpenInWslStep::Nothing);
    assert_eq!(
        open_folder_in_wsl(
            &Some(vec![
                picked(None, Some("/mnt/c/a")),
                picked(Some(("Ubuntu", "/home")), None),
                picked(Some(("Debian", "/srv")), None),
            ]),
            false,
            true
        ),
        OpenInWslStep::OpenRemote {
            distro: "Ubuntu".into(),
            path: "/home".into(),
            reuse_window: true
        }
    );
    assert_eq!(
        open_folder_in_wsl(
            &Some(vec![picked(None, Some("/mnt/c/a")), picked(None, None)]),
            true,
            true
        ),
        OpenInWslStep::PickDistro { paths: vec!["/mnt/c/a".into()], create_new_window: true }
    );
    match open_folder_in_wsl(&Some(vec![picked(None, None)]), true, true) {
        OpenInWslStep::InvalidPath { title, message } => {
            assert_eq!(title, "Invalid path");
            assert_eq!(
                message,
                "Invalid path specified when trying to open a folder inside WSL.\n\n\
                 Please note that Zed currently does not support opening network share \
                 folders inside wsl.\n"
            );
        }
        _ => panic!("no distribution reaches the path"),
    }
}

#[test]
fn distributions_are_added_once() {
    let distro = |name: &str, user: Option<&str>| WslConnection {
        distro_name: name.into(),
        user: user.map(|user| user.to_string()),
    };
    let mut connections = None;
    assert!(add_wsl_distro(&mut connections, distro("Ubuntu", None)));
    assert!(!add_wsl_distro(&mut connections, distro("Ubuntu", None)));
    assert!(add_wsl_distro(&mut connections, distro("Ubuntu", Some("me"))));
    assert!(!add_wsl_distro(&mut connections, distro("Ubuntu", Some("me"))));
    assert!(add_wsl_distro(&mut connections, distro("Debian", Some("me"))));
    assert_eq!(
        connections.unwrap(),
        [
            distro("Ubuntu", None),
            distro("Ubuntu", Some("me")),
            distro("Debian", Some("me"))
        ]
    );
}

#[test]
fn test_open_dev_container_action_with_multiple_configs() {
    assert_eq!(open_dev_container(true), OpenDevContainerStep::ShowConfigs);
}
