//! What the picker lists, and what stays selected.
use recent_projects::delegate::RecentProjectsDelegate;
use recent_projects::deletion::{EntryKind, RemoveAction};
use recent_projects::listing::{path_list_search_blob, MatchRequest, MatchResults, MAX_MATCHES};
use recent_projects::model::{
    OpenFolderEntry, ProjectFolder, ProjectFolderAssignment, ProjectFolderId, ProjectGroupKey,
    ProjectPickerEntry, ProjectPickerStyle, RecentWorkspace, RemoteConnection, RemoteKind,
    SerializedWorkspaceLocation, StringMatch, Timestamp, WorkspaceId, WorktreeId,
};
use recent_projects::path::{PathComponent, PathList, ProjectPath};
use recent_projects::picker::RecentProjects;
use recent_projects::rows::{icon_for_project_group, IconName};
use std::path::{Component, Path};

// The rows for the empty query:
//
//   [0] Header("Current Folders")
//   [1] OpenFolder(0)
//   [2] OpenFolder(1)
//   [3] Header("This Window")
//   [4] ProjectGroup(0)
//   [5] ProjectGroup(1)
//   [6] Header("Ungrouped")
//   [7..=26] RecentProject(0..=19)
//   [27] NewFolder
//
const RECENT_PROJECT_COUNT: usize = 20;
const FIRST_RECENT_PROJECT: usize = 7;
const LAST_RECENT_PROJECT: usize = FIRST_RECENT_PROJECT + RECENT_PROJECT_COUNT - 1;

fn project_path(text: &str) -> ProjectPath {
    let path = Path::new(text);
    let components = path
        .components()
        .map(|component| match component {
            Component::Prefix(_) => unreachable!("these paths have no prefix"),
            Component::RootDir => PathComponent::RootDir,
            Component::CurDir => PathComponent::CurDir,
            Component::ParentDir => PathComponent::ParentDir,
            Component::Normal(name) => {
                PathComponent::Normal(name.to_str().unwrap().as_bytes().to_vec())
            }
        })
        .collect();
    ProjectPath {
        raw: text.as_bytes().to_vec(),
        components,
        text: text.to_string(),
        compact: text.to_string(),
        compact_file_name: path
            .file_name()
            .map(|name| name.to_str().unwrap().to_string()),
    }
}

fn path_list(texts: &[&str]) -> PathList {
    let mut sorted: Vec<&str> = texts.to_vec();
    sorted.sort_by_key(|text| Path::new(*text));
    PathList {
        paths: sorted.iter().map(|text| project_path(text)).collect(),
        ordered_paths: texts.iter().map(|text| project_path(text)).collect(),
    }
}

fn mock_host(id: u64) -> RemoteConnection {
    RemoteConnection {
        kind: RemoteKind::Mock,
        options: id,
        identity: id,
        persistence_key: format!("mock:{id}"),
        display_name: format!("mock-{id}"),
    }
}

fn open_folder(index: usize) -> OpenFolderEntry {
    OpenFolderEntry {
        worktree_id: WorktreeId(index),
        name: format!("project-folder-{index}"),
        path: project_path(&format!("/current/project-folder-{index}")),
        branch: None,
        is_active: false,
        connection_options: None,
    }
}

fn project_group(index: usize) -> ProjectGroupKey {
    ProjectGroupKey::new(None, path_list(&[&format!("/this-window/project-{index}")]))
}

fn remote_project_group(index: usize) -> ProjectGroupKey {
    ProjectGroupKey::new(
        Some(mock_host(index as u64)),
        path_list(&[&format!("/this-window/remote-project-{index}")]),
    )
}

fn local_workspace(id: i64, path: &str) -> RecentWorkspace {
    RecentWorkspace {
        workspace_id: WorkspaceId(id),
        location: SerializedWorkspaceLocation::Local,
        paths: path_list(&[path]),
        identity_paths: path_list(&[path]),
        timestamp: Timestamp { seconds: id, nanoseconds: 0 },
    }
}

fn recent_workspace(index: usize) -> RecentWorkspace {
    local_workspace(index as i64, &format!("/recent/project-{index:02}"))
}

fn recent_workspaces() -> Vec<RecentWorkspace> {
    (0..RECENT_PROJECT_COUNT).map(recent_workspace).collect()
}

fn find_all(texts: &[String], query: &str) -> Vec<StringMatch> {
    texts
        .iter()
        .enumerate()
        .filter_map(|(candidate_id, text)| {
            let at = text.to_lowercase().find(&query.to_lowercase())?;
            Some(StringMatch {
                candidate_id,
                positions: (at..at + query.len()).collect(),
                string: text.clone(),
            })
        })
        .take(MAX_MATCHES)
        .collect()
}

fn matches_of(request: &MatchRequest) -> MatchResults {
    MatchResults {
        open_folders: find_all(&request.open_folders, &request.query),
        project_groups: find_all(&request.project_groups, &request.query),
        recents: find_all(&request.recents, &request.query),
        folder_names: find_all(&request.folder_names, &request.query),
    }
}

fn search(delegate: &mut RecentProjectsDelegate, query: &str) {
    let results = matches_of(&delegate.match_request(query));
    delegate.update_matches(query, &results, None);
}

fn build_picker() -> RecentProjectsDelegate {
    let mut delegate = RecentProjectsDelegate::new(
        false,
        vec![open_folder(0), open_folder(1)],
        vec![project_group(0), project_group(1)],
        ProjectPickerStyle::Modal,
    );
    delegate.set_workspaces(recent_workspaces());
    search(&mut delegate, "");
    delegate
}

fn delete_recent_project_in_picker(
    delegate: &mut RecentProjectsDelegate,
    index: usize,
    scrolled_to_end: Option<bool>,
) {
    let candidate_id = delegate
        .delete_recent_project(index)
        .expect("a recent project stands at the index");
    let mut workspaces = recent_workspaces();
    workspaces.remove(candidate_id);
    let request = delegate.recent_projects_changed(workspaces, "");
    let results = matches_of(&request);
    delegate.update_picker_after_recent_project_deletion(
        index,
        scrolled_to_end,
        "",
        &results,
        None,
    );
}

fn assert_selected_entry_is_recent_project(delegate: &RecentProjectsDelegate) {
    assert!(matches!(
        delegate.filtered_entries.get(delegate.selected_index),
        Some(ProjectPickerEntry::RecentProject(_))
    ));
}

fn assign_first_recent_to_folder(
    delegate: &mut RecentProjectsDelegate,
    folder_name: &str,
) -> ProjectFolderId {
    let folder_id = ProjectFolderId(1);
    let remote_identity = delegate.workspaces[0].project_folder_identity();
    let identity_paths = delegate.workspaces[0].identity_paths.clone();
    delegate.set_folders(
        vec![ProjectFolder { folder_id, name: folder_name.to_string(), position: 0 }],
        vec![ProjectFolderAssignment { folder_id, remote_identity, identity_paths, position: 0 }],
    );
    delegate.snap_selection_to_first_non_header_match = false;
    search(delegate, "");
    folder_id
}

fn is_folder(entry: &ProjectPickerEntry, wanted: &str) -> bool {
    matches!(entry, ProjectPickerEntry::Folder { name, .. } if name == wanted)
}

fn is_header(entry: &ProjectPickerEntry, wanted: &str) -> bool {
    matches!(entry, ProjectPickerEntry::Header(title) if title == wanted)
}

fn is_recent(entry: &ProjectPickerEntry, id: usize) -> bool {
    matches!(entry, ProjectPickerEntry::RecentProject(hit) if hit.candidate_id == id)
}

fn is_group(entry: &ProjectPickerEntry, id: usize) -> bool {
    matches!(entry, ProjectPickerEntry::ProjectGroup(hit) if hit.candidate_id == id)
}

#[test]
fn empty_query_lists_every_section() {
    let delegate = build_picker();
    let entries = &delegate.filtered_entries;
    assert_eq!(entries.len(), 28);
    assert_eq!(delegate.match_count(), 28);
    assert!(is_header(&entries[0], "Current Folders"));
    assert_eq!(entries[1], ProjectPickerEntry::OpenFolder { index: 0, positions: vec![] });
    assert_eq!(entries[2], ProjectPickerEntry::OpenFolder { index: 1, positions: vec![] });
    assert!(is_header(&entries[3], "This Window"));
    assert!(is_group(&entries[4], 0));
    assert!(is_group(&entries[5], 1));
    assert!(is_header(&entries[6], "Ungrouped"));
    for id in 0..RECENT_PROJECT_COUNT {
        assert!(is_recent(&entries[FIRST_RECENT_PROJECT + id], id));
    }
    assert_eq!(entries[27], ProjectPickerEntry::NewFolder);
    assert_eq!(delegate.selected_index(), 1);
}

#[test]
fn headers_cannot_be_selected() {
    let delegate = build_picker();
    assert!(!delegate.can_select(0));
    assert!(delegate.can_select(1));
    assert!(!delegate.can_select(3));
    assert!(delegate.can_select(27));
    assert!(!delegate.can_select(28));
}

#[test]
fn this_window_project_icons_use_each_project_group_host() {
    let mut delegate = RecentProjectsDelegate::new(
        false,
        Vec::new(),
        vec![project_group(0), remote_project_group(1)],
        ProjectPickerStyle::Modal,
    );
    delegate.filtered_entries = vec![
        ProjectPickerEntry::ProjectGroup(StringMatch {
            candidate_id: 0,
            positions: Vec::new(),
            string: Default::default(),
        }),
        ProjectPickerEntry::ProjectGroup(StringMatch {
            candidate_id: 1,
            positions: Vec::new(),
            string: Default::default(),
        }),
    ];

    assert!(!delegate.entry_is_remote_project(&delegate.filtered_entries[0]));
    assert!(delegate.entry_is_remote_project(&delegate.filtered_entries[1]));
    assert!(delegate.filtered_entries_include_remote_project());
    assert_eq!(
        icon_for_project_group(&delegate.window_project_groups[0]),
        IconName::Screen
    );
    assert_eq!(
        icon_for_project_group(&delegate.window_project_groups[1]),
        IconName::Server
    );
}

#[test]
fn is_open_folder_distinguishes_local_and_remote() {
    let local_open_folder = OpenFolderEntry {
        worktree_id: WorktreeId(0),
        name: "repo".into(),
        path: project_path("/repo"),
        branch: None,
        is_active: false,
        connection_options: None,
    };
    let delegate = RecentProjectsDelegate::new(
        false,
        vec![local_open_folder],
        Vec::new(),
        ProjectPickerStyle::Modal,
    );
    let local = local_workspace(1, "/repo");
    let remote = RecentWorkspace {
        workspace_id: WorkspaceId(2),
        location: SerializedWorkspaceLocation::Remote(mock_host(0)),
        paths: path_list(&["/repo"]),
        identity_paths: path_list(&["/repo"]),
        timestamp: Timestamp { seconds: 0, nanoseconds: 0 },
    };

    // A local open folder should hide only the matching local recent
    // project, not a remote checkout that shares the same path.
    assert!(delegate.is_open_folder(&local));
    assert!(!delegate.is_open_folder(&remote));
}

#[test]
fn deleting_top_recent_project_preserves_scroll_position() {
    let target = FIRST_RECENT_PROJECT;
    let mut delegate = build_picker();
    delegate.set_selected_index(target);
    delete_recent_project_in_picker(&mut delegate, target, Some(false));
    assert_eq!(delegate.selected_index, target);
    assert_selected_entry_is_recent_project(&delegate);
}

#[test]
fn deleting_middle_recent_project_preserves_scroll_position() {
    let target = FIRST_RECENT_PROJECT + RECENT_PROJECT_COUNT / 2;
    let mut delegate = build_picker();
    delegate.set_selected_index(target);
    delete_recent_project_in_picker(&mut delegate, target, Some(false));
    assert_eq!(delegate.selected_index, target);
    assert_selected_entry_is_recent_project(&delegate);
}

#[test]
fn deleting_last_recent_project_preserves_scroll_position() {
    let target = LAST_RECENT_PROJECT;
    let mut delegate = build_picker();
    delegate.set_selected_index(target + 1);
    delete_recent_project_in_picker(&mut delegate, target, Some(true));
    assert_eq!(delegate.selected_index, target - 1);
    assert_selected_entry_is_recent_project(&delegate);
}

#[test]
fn replacement_prefers_the_section_and_the_side() {
    let delegate = build_picker();
    let recent = EntryKind::RecentProject;
    assert_eq!(delegate.replacement_index_after_deletion(10, false, recent), Some(10));
    assert_eq!(delegate.replacement_index_after_deletion(10, true, recent), Some(9));
    assert_eq!(delegate.replacement_index_after_deletion(27, false, recent), Some(26));
    assert_eq!(delegate.replacement_index_after_deletion(500, false, recent), Some(26));
    assert_eq!(delegate.replacement_index_after_deletion(0, true, recent), Some(7));
    assert_eq!(
        delegate.replacement_index_after_deletion(3, true, EntryKind::ProjectGroup),
        Some(4)
    );
}

#[test]
fn replacement_falls_back_to_selectable_rows() {
    let mut delegate = RecentProjectsDelegate::new(
        false,
        vec![open_folder(0)],
        Vec::new(),
        ProjectPickerStyle::Modal,
    );
    assert_eq!(
        delegate.replacement_index_after_deletion(0, false, EntryKind::RecentProject),
        None
    );
    search(&mut delegate, "");
    assert_eq!(
        delegate.replacement_index_after_deletion(0, false, EntryKind::RecentProject),
        Some(1)
    );
    assert_eq!(
        delegate.replacement_index_after_deletion(2, true, EntryKind::RecentProject),
        Some(1)
    );
}

#[test]
fn recent_projects_are_grouped_under_user_folders() {
    let mut delegate = build_picker();
    assign_first_recent_to_folder(&mut delegate, "Work");
    let entries = &delegate.filtered_entries;
    let work_ix = entries
        .iter()
        .position(|entry| is_folder(entry, "Work"))
        .expect("Work folder should be listed");
    assert!(
        is_recent(&entries[work_ix + 1], 0),
        "assigned project should appear under its folder"
    );
    let ungrouped_ix = entries
        .iter()
        .position(|entry| is_header(entry, "Ungrouped"))
        .expect("Ungrouped section should remain");
    assert!(work_ix < ungrouped_ix, "folders should appear before Ungrouped");
    assert!(
        !entries[ungrouped_ix..].iter().any(|entry| is_recent(entry, 0)),
        "assigned project should not remain in Ungrouped"
    );
    assert!(
        entries.iter().any(|entry| matches!(entry, ProjectPickerEntry::NewFolder)),
        "modal picker should keep a New Folder row"
    );
}

#[test]
fn searching_grouped_projects_keeps_folder_headers() {
    let mut delegate = build_picker();
    assign_first_recent_to_folder(&mut delegate, "Work");
    search(&mut delegate, "project-00");
    let entries = &delegate.filtered_entries;
    assert!(
        entries.iter().any(|entry| is_folder(entry, "Work")),
        "matching a project should still show its folder header"
    );
    assert!(
        entries.iter().any(|entry| is_recent(entry, 0)),
        "matching project should remain visible"
    );
    assert!(
        !entries.iter().any(|entry| matches!(entry, ProjectPickerEntry::NewFolder)),
        "New Folder should be hidden while searching"
    );
}

#[test]
fn deleting_user_folder_returns_projects_to_ungrouped() {
    let mut delegate = build_picker();
    assign_first_recent_to_folder(&mut delegate, "Work");
    delegate.folders_changed(Vec::new(), Vec::new());
    search(&mut delegate, "");
    let entries = &delegate.filtered_entries;
    assert!(!entries.iter().any(|entry| is_folder(entry, "Work")));
    let ungrouped_ix = entries
        .iter()
        .position(|entry| is_header(entry, "Ungrouped"))
        .expect("Ungrouped section should exist");
    assert!(
        entries[ungrouped_ix..].iter().any(|entry| is_recent(entry, 0)),
        "unassigned project should return to Ungrouped"
    );
}

fn file_window_project(delegate: &mut RecentProjectsDelegate) {
    let folder_id = ProjectFolderId(1);
    delegate.set_folders(
        vec![ProjectFolder { folder_id, name: "test".into(), position: 0 }],
        vec![ProjectFolderAssignment {
            folder_id,
            remote_identity: String::new(),
            identity_paths: path_list(&["/this-window/project-0"]),
            position: 0,
        }],
    );
    delegate.snap_selection_to_first_non_header_match = false;
    search(delegate, "");
}

#[test]
fn assigned_open_project_stays_under_folder_not_ungrouped() {
    let mut delegate = build_picker();
    let mut workspaces = recent_workspaces();
    workspaces.push(local_workspace(99, "/this-window/project-0"));
    delegate.set_workspaces(workspaces);
    file_window_project(&mut delegate);
    let entries = &delegate.filtered_entries;
    let folder_ix = entries
        .iter()
        .position(|entry| is_folder(entry, "test"))
        .expect("test folder should be listed");
    assert!(
        is_recent(&entries[folder_ix + 1], RECENT_PROJECT_COUNT),
        "currently open assigned project should appear under its folder"
    );
    assert!(
        !entries.iter().any(|entry| is_group(entry, 0)),
        "assigned This Window project should not stay in This Window"
    );
    if let Some(ungrouped_ix) = entries.iter().position(|entry| is_header(entry, "Ungrouped")) {
        assert!(
            !entries[ungrouped_ix..]
                .iter()
                .any(|entry| is_recent(entry, RECENT_PROJECT_COUNT)),
            "assigned project should not remain in Ungrouped"
        );
    }
}

#[test]
fn assigned_this_window_project_appears_under_folder() {
    let mut delegate = build_picker();
    file_window_project(&mut delegate);
    let entries = &delegate.filtered_entries;
    let folder_ix = entries
        .iter()
        .position(|entry| is_folder(entry, "test"))
        .expect("test folder should be listed");
    assert!(
        is_group(&entries[folder_ix + 1], 0),
        "This Window project should appear under its folder"
    );
    assert_eq!(
        entries.iter().filter(|entry| is_group(entry, 0)).count(),
        1,
        "assigned This Window project should not also remain under This Window"
    );
}

#[test]
fn searching_matches_folder_names_and_project_basenames() {
    let mut delegate = build_picker();
    assign_first_recent_to_folder(&mut delegate, "Work");

    search(&mut delegate, "Work");
    let entries = &delegate.filtered_entries;
    assert!(
        entries.iter().any(|entry| is_folder(entry, "Work")),
        "folder name search should show the folder"
    );
    assert!(
        entries.iter().any(|entry| is_recent(entry, 0)),
        "matching a folder name should keep its members visible"
    );
    assert!(
        !entries.iter().any(|entry| is_header(entry, "Ungrouped")),
        "unrelated Ungrouped recents should be hidden when searching a folder name"
    );

    search(&mut delegate, "project-00");
    let entries = &delegate.filtered_entries;
    assert!(
        entries.iter().any(|entry| is_folder(entry, "Work")),
        "basename search should still show the parent folder"
    );
    assert!(
        entries.iter().any(|entry| is_recent(entry, 0)),
        "basename search should find the assigned project"
    );

    search(&mut delegate, "no-such-project");
    let entries = &delegate.filtered_entries;
    assert!(
        !entries.iter().any(|entry| is_folder(entry, "Work")),
        "unrelated search should hide folders with no matching members"
    );
}

#[test]
fn leading_white_space_does_not_count() {
    let mut delegate = build_picker();
    search(&mut delegate, " \t project-00");
    assert_eq!(delegate.match_request(" \t project-00").query, "project-00");
    assert!(delegate.filtered_entries.iter().any(|entry| is_recent(entry, 0)));
    search(&mut delegate, "   ");
    assert_eq!(delegate.match_count(), 28);
}

#[test]
fn candidates_are_the_names_and_the_paths() {
    let delegate = build_picker();
    let request = delegate.match_request("x");
    assert_eq!(request.open_folders, ["project-folder-0", "project-folder-1"]);
    assert_eq!(request.project_groups[1], "project-1 /this-window/project-1");
    assert_eq!(request.recents[7], "project-07 /recent/project-07");
    assert_eq!(request.recents.len(), RECENT_PROJECT_COUNT);
    assert!(request.folder_names.is_empty());
    assert_eq!(path_list_search_blob(&path_list(&["/b", "/", "/a"])), "b /b / a /a");
}

#[test]
fn folder_names_are_matched_only_for_a_query() {
    let mut delegate = build_picker();
    assign_first_recent_to_folder(&mut delegate, "Work");
    assert_eq!(delegate.match_request("w").folder_names, ["Work"]);
    assert!(delegate.match_request("  ").folder_names.is_empty());
}

#[test]
fn the_current_workspace_is_not_offered() {
    let mut delegate = build_picker();
    let results = matches_of(&delegate.match_request(""));
    delegate.update_matches("", &results, Some(WorkspaceId(3)));
    assert!(!delegate.filtered_entries.iter().any(|entry| is_recent(entry, 3)));
    assert!(delegate.filtered_entries.iter().any(|entry| is_recent(entry, 4)));
}

#[test]
fn members_are_listed_by_position() {
    let mut delegate = build_picker();
    let folder_id = ProjectFolderId(5);
    let filed = |id: usize, position: i64| ProjectFolderAssignment {
        folder_id,
        remote_identity: String::new(),
        identity_paths: path_list(&[&format!("/recent/project-{id:02}")]),
        position,
    };
    delegate.set_folders(
        vec![ProjectFolder { folder_id, name: "Mine".into(), position: 0 }],
        vec![filed(4, 2), filed(2, 1), filed(9, 2), filed(0, -1)],
    );
    search(&mut delegate, "");
    let at = delegate
        .filtered_entries
        .iter()
        .position(|entry| is_folder(entry, "Mine"))
        .unwrap();
    let listed: Vec<bool> = [0, 2, 4, 9]
        .iter()
        .enumerate()
        .map(|(k, id)| is_recent(&delegate.filtered_entries[at + 1 + k], *id))
        .collect();
    assert_eq!(listed, [true, true, true, true]);
}

#[test]
fn the_popover_has_no_row_that_creates_folders() {
    let mut delegate =
        RecentProjectsDelegate::new(false, Vec::new(), Vec::new(), ProjectPickerStyle::Popover);
    delegate.set_workspaces(recent_workspaces());
    search(&mut delegate, "");
    assert_eq!(delegate.match_count(), 21);
    assert!(!delegate
        .filtered_entries
        .iter()
        .any(|entry| matches!(entry, ProjectPickerEntry::NewFolder)));
}

#[test]
fn empty_lists_say_why() {
    let mut delegate =
        RecentProjectsDelegate::new(false, Vec::new(), Vec::new(), ProjectPickerStyle::Popover);
    assert_eq!(delegate.no_matches_text(), "Recently opened projects will show up here");
    delegate.set_workspaces(recent_workspaces());
    assert_eq!(delegate.no_matches_text(), "No matches");
}

#[test]
fn test_remove_open_folder_rekeys_this_window_group() {
    let mut delegate = RecentProjectsDelegate::new(
        false,
        Vec::new(),
        vec![ProjectGroupKey::new(None, path_list(&["/a", "/b"]))],
        ProjectPickerStyle::Popover,
    );
    let old_key = ProjectGroupKey::new(None, path_list(&["/b", "/a"]));
    assert_eq!(
        delegate.window_project_groups[0].paths.paths.len(),
        2,
        "group should span both folders before removal"
    );
    let new_key = ProjectGroupKey::new(None, path_list(&["/b"]));
    delegate.remove_open_folder(&old_key, new_key, Vec::new());
    assert!(
        !delegate
            .window_project_groups
            .iter()
            .any(|key| key.paths.paths.iter().any(|path| path.text.ends_with('a'))),
        "the removed folder should no longer appear in any This Window group"
    );
    assert_eq!(delegate.window_project_groups.len(), 1);
}

#[test]
fn only_the_first_group_with_the_old_key_changes() {
    let mut delegate = RecentProjectsDelegate::new(
        false,
        Vec::new(),
        vec![project_group(1), project_group(0), project_group(0)],
        ProjectPickerStyle::Modal,
    );
    delegate.remove_open_folder(&project_group(0), project_group(7), vec![open_folder(3)]);
    assert!(delegate.window_project_groups[0].is_equal_to(&project_group(1)));
    assert!(delegate.window_project_groups[1].is_equal_to(&project_group(7)));
    assert!(delegate.window_project_groups[2].is_equal_to(&project_group(0)));
    assert_eq!(delegate.open_folders.len(), 1);
    delegate.remove_open_folder(&project_group(5), project_group(6), Vec::new());
    assert!(delegate.window_project_groups[1].is_equal_to(&project_group(7)));
    assert!(delegate.open_folders.is_empty());
}

#[test]
fn removing_a_group_removes_its_equals() {
    let mut delegate = RecentProjectsDelegate::new(
        false,
        Vec::new(),
        vec![project_group(0), project_group(1), project_group(0), remote_project_group(0)],
        ProjectPickerStyle::Modal,
    );
    delegate.remove_project_group(&project_group(0));
    assert_eq!(delegate.window_project_groups.len(), 2);
    assert!(delegate.window_project_groups[0].is_equal_to(&project_group(1)));
    assert!(delegate.window_project_groups[1].is_equal_to(&remote_project_group(0)));
}

#[test]
fn removing_the_selected_row_depends_on_the_row() {
    let mut delegate = build_picker();
    assign_first_recent_to_folder(&mut delegate, "Work");
    let mut picker = RecentProjects { picker: delegate };
    let removal_at = |picker: &mut RecentProjects, ix: usize| {
        picker.picker.set_selected_index(ix);
        picker.handle_remove_selected()
    };
    assert_eq!(removal_at(&mut picker, 0), RemoveAction::Nothing);
    assert_eq!(removal_at(&mut picker, 2), RemoveAction::OpenFolder(WorktreeId(1)));
    assert_eq!(removal_at(&mut picker, 5), RemoveAction::ProjectGroup(1));
    assert_eq!(removal_at(&mut picker, 6), RemoveAction::Folder(ProjectFolderId(1)));
    assert_eq!(removal_at(&mut picker, 7), RemoveAction::RecentProject(0));
    let last = picker.picker.match_count() - 1;
    assert_eq!(removal_at(&mut picker, last), RemoveAction::Nothing);
    assert_eq!(removal_at(&mut picker, last + 1), RemoveAction::Nothing);
    picker.picker.set_workspaces(Vec::new());
    assert_eq!(removal_at(&mut picker, 7), RemoveAction::Nothing);
    assert_eq!(picker.picker.delete_recent_project(7), None);
    assert_eq!(picker.picker.delete_recent_project(0), None);
}

#[test]
fn groups_match_by_host_and_paths() {
    let near = remote_project_group(1);
    let mut same_place = remote_project_group(1);
    same_place.host.as_mut().unwrap().options = 77;
    assert!(near.matches(&same_place));
    assert!(!near.is_equal_to(&same_place));
    assert!(!near.matches(&remote_project_group(2)));
    assert!(!project_group(1).matches(&ProjectGroupKey::new(
        Some(mock_host(1)),
        path_list(&["/this-window/project-1"]),
    )));
}

#[test]
fn a_group_of_the_window_hides_its_recent_project() {
    let mut delegate = build_picker();
    delegate.set_workspaces(vec![
        local_workspace(0, "/this-window/project-1"),
        local_workspace(1, "/elsewhere"),
    ]);
    search(&mut delegate, "");
    assert!(!delegate.filtered_entries.iter().any(|entry| is_recent(entry, 0)));
    assert!(delegate.filtered_entries.iter().any(|entry| is_recent(entry, 1)));
    assert!(!delegate.is_valid_recent_candidate(&delegate.workspaces[0], None));
    assert!(!delegate.is_valid_recent_candidate(&delegate.workspaces[1], Some(WorkspaceId(1))));
    assert!(delegate.is_valid_recent_candidate(&delegate.workspaces[1], Some(WorkspaceId(2))));
}

#[test]
fn the_last_match_of_a_candidate_counts() {
    let hit = |candidate_id: usize, positions: Vec<usize>| StringMatch {
        candidate_id,
        positions,
        string: String::new(),
    };
    let hits = vec![hit(3, vec![1]), hit(3, vec![2, 4]), hit(5, vec![9])];
    assert_eq!(
        recent_projects::model::recent_project_match(3, &hits).positions,
        [2, 4]
    );
    assert_eq!(recent_projects::model::recent_project_match(4, &hits), hit(4, vec![]));
}

#[test]
fn the_listing_does_not_depend_on_what_was_listed_before() {
    let fresh = build_picker();
    let mut used = build_picker();
    search(&mut used, "project-00");
    used.set_selected_index(40);
    search(&mut used, "");
    assert_eq!(used.filtered_entries, fresh.filtered_entries);
    assert_eq!(used.selected_index, fresh.selected_index);
}

#[test]
fn unfiled_groups_stay_in_this_window_while_searching() {
    let mut delegate = build_picker();
    file_window_project(&mut delegate);
    search(&mut delegate, "this-window");
    let entries = &delegate.filtered_entries;
    let header = entries.iter().position(|entry| is_header(entry, "This Window")).unwrap();
    assert!(is_group(&entries[header + 1], 1));
    let folder = entries.iter().position(|entry| is_folder(entry, "test")).unwrap();
    assert!(is_group(&entries[folder + 1], 0));
}

/// A picker over one group of the window and one recent project, both filed in folder 1, which is
/// among the folders or is not.
fn picker_filing_in_folder(known: bool) -> RecentProjectsDelegate {
    let mut delegate = RecentProjectsDelegate::new(
        false,
        Vec::new(),
        vec![project_group(0)],
        ProjectPickerStyle::Modal,
    );
    delegate.set_workspaces(vec![local_workspace(1, "/recent/project-00")]);
    let folder_id = ProjectFolderId(1);
    let assignment = |path: &str, position| ProjectFolderAssignment {
        folder_id,
        remote_identity: delegate.workspaces[0].project_folder_identity(),
        identity_paths: path_list(&[path]),
        position,
    };
    let assignments =
        vec![assignment("/this-window/project-0", 0), assignment("/recent/project-00", 1)];
    let folders = if known {
        vec![ProjectFolder { folder_id, name: "Work".to_string(), position: 0 }]
    } else {
        Vec::new()
    };
    delegate.set_folders(folders, assignments);
    search(&mut delegate, "");
    delegate
}

#[test]
fn groups_filed_in_an_unknown_folder_stay_listed() {
    let delegate = picker_filing_in_folder(false);
    let entries = &delegate.filtered_entries;
    assert_eq!(entries.len(), 3);
    assert!(is_header(&entries[0], "This Window"));
    assert!(is_group(&entries[1], 0));
    assert_eq!(entries[2], ProjectPickerEntry::NewFolder);
}

#[test]
fn recent_projects_filed_in_an_unknown_folder_are_not_listed() {
    let mut delegate = picker_filing_in_folder(false);
    assert!(!delegate.filtered_entries.iter().any(|entry| is_recent(entry, 0)));
    search(&mut delegate, "project-00");
    assert_eq!(delegate.filtered_entries, []);
}

#[test]
fn projects_filed_in_a_known_folder_are_listed_there() {
    let delegate = picker_filing_in_folder(true);
    let entries = &delegate.filtered_entries;
    assert_eq!(entries.len(), 4);
    assert!(is_folder(&entries[0], "Work"));
    assert!(is_recent(&entries[1], 0));
    assert!(is_group(&entries[2], 0));
    assert_eq!(entries[3], ProjectPickerEntry::NewFolder);
}

#[test]
fn groups_filed_in_an_unknown_folder_are_found() {
    let mut delegate = picker_filing_in_folder(false);
    search(&mut delegate, "this-window");
    assert!(is_header(&delegate.filtered_entries[0], "This Window"));
    assert!(is_group(&delegate.filtered_entries[1], 0));
    assert_eq!(delegate.filtered_entries.len(), 2);
}

#[test]
fn titles_and_folders_keep_their_order() {
    let mut delegate = build_picker();
    let folder = |id, name: &str| ProjectFolder {
        folder_id: ProjectFolderId(id),
        name: name.to_string(),
        position: id,
    };
    delegate.set_folders(vec![folder(7, "Zebra"), folder(3, "Ape")], Vec::new());
    delegate.start_create_folder(None);
    search(&mut delegate, "");
    let titles: Vec<&str> = delegate
        .filtered_entries
        .iter()
        .filter_map(|entry| match entry {
            ProjectPickerEntry::Header(title) => Some(title.as_str()),
            ProjectPickerEntry::Folder { name, .. } => Some(name.as_str()),
            _ => None,
        })
        .collect();
    assert_eq!(titles, ["Current Folders", "This Window", "Zebra", "Ape", "", "Ungrouped"]);
}
