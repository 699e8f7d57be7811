//! Creating, renaming and deleting folders.
use recent_projects::delegate::RecentProjectsDelegate;
use recent_projects::folder_edit::{assignment_after_save, FolderCommit};
use recent_projects::footer::{populate_move_to_folder_menu, FolderMenuItem};
use recent_projects::listing::MatchResults;
use recent_projects::model::{
    FolderEdit, PendingFolderAssign, ProjectFolder, ProjectFolderId, ProjectPickerEntry,
    ProjectPickerStyle,
};
use recent_projects::path::PathList;
use recent_projects::picker::RecentProjects;

fn folder(id: i64, name: &str) -> ProjectFolder {
    ProjectFolder { folder_id: ProjectFolderId(id), name: name.to_string(), position: id }
}

fn no_matches() -> MatchResults {
    MatchResults {
        open_folders: Vec::new(),
        project_groups: Vec::new(),
        recents: Vec::new(),
        folder_names: Vec::new(),
    }
}

fn picker_with_folders(style: ProjectPickerStyle) -> RecentProjectsDelegate {
    let mut delegate = RecentProjectsDelegate::new(false, Vec::new(), Vec::new(), style);
    delegate.set_folders(vec![folder(1, "Work"), folder(2, "Play")], Vec::new());
    delegate.update_matches("", &no_matches(), None);
    delegate
}

fn draft() -> ProjectPickerEntry {
    ProjectPickerEntry::Folder { folder_id: ProjectFolderId(-1), name: String::new() }
}

fn pending(identity: &str) -> PendingFolderAssign {
    PendingFolderAssign {
        remote_identity: identity.to_string(),
        identity_paths: PathList { paths: Vec::new(), ordered_paths: Vec::new() },
    }
}

#[test]
fn creating_puts_a_draft_where_the_new_folder_row_was() {
    let mut delegate = picker_with_folders(ProjectPickerStyle::Modal);
    assert_eq!(delegate.filtered_entries.len(), 3);
    assert!(delegate.start_create_folder(None));
    assert_eq!(delegate.filtered_entries.len(), 3);
    assert_eq!(delegate.filtered_entries[2], draft());
    assert_eq!(delegate.selected_index, 2);
    assert!(delegate.is_creating_folder());
    assert!(delegate.is_draft_folder(ProjectFolderId(-1)));
    assert!(!delegate.is_draft_folder(ProjectFolderId(1)));
}

#[test]
fn creating_while_searching_appends_one_draft() {
    let mut delegate = picker_with_folders(ProjectPickerStyle::Modal);
    delegate.update_matches("zzz", &no_matches(), None);
    assert_eq!(delegate.filtered_entries.len(), 0);
    assert!(delegate.start_create_folder(None));
    assert_eq!(delegate.filtered_entries, [draft()]);
    delegate.set_selected_index(5);
    assert!(delegate.start_create_folder(None));
    assert_eq!(delegate.filtered_entries, [draft()]);
    assert_eq!(delegate.selected_index, 5);
    assert_eq!(delegate.select_draft(), Some(0));
    assert_eq!(delegate.selected_index, 0);
}

#[test]
fn the_popover_edits_no_folders() {
    let mut delegate = picker_with_folders(ProjectPickerStyle::Popover);
    assert!(!delegate.start_create_folder(Some(pending("x"))));
    assert!(!delegate.start_rename_folder(ProjectFolderId(1)));
    assert_eq!(delegate.folder_edit, None);
    assert!(delegate.pending_assign_after_create.is_none());
}

#[test]
fn cancelling_undoes_creating() {
    let mut delegate = picker_with_folders(ProjectPickerStyle::Modal);
    let titles = |delegate: &RecentProjectsDelegate| format!("{:?}", delegate.filtered_entries);
    let before = titles(&delegate);
    delegate.start_create_folder(Some(pending("host")));
    assert_ne!(titles(&delegate), before);
    delegate.cancel_folder_edit();
    assert_eq!(titles(&delegate), before);
    assert_eq!(delegate.folder_edit, None);
    assert!(delegate.pending_assign_after_create.is_none());
}

#[test]
fn the_draft_is_listed_until_the_edit_ends() {
    let mut delegate = picker_with_folders(ProjectPickerStyle::Modal);
    let mut picker = {
        delegate.start_create_folder(None);
        RecentProjects { picker: delegate }
    };
    picker.picker.update_matches("", &no_matches(), None);
    assert_eq!(picker.picker.filtered_entries.last(), Some(&draft()));
    assert_eq!(picker.picker.select_draft(), Some(2));
    picker.picker.cancel_folder_edit();
    assert_eq!(picker.picker.filtered_entries.last(), Some(&ProjectPickerEntry::NewFolder));
    assert_eq!(picker.picker.select_draft(), None);
}

#[test]
fn nothing_is_committed_without_an_edit() {
    let mut delegate = picker_with_folders(ProjectPickerStyle::Modal);
    let name = "Name".to_string();
    assert!(matches!(delegate.commit_folder_edit(Some(&name)), FolderCommit::Idle));
}

#[test]
fn a_blank_name_cancels() {
    let mut delegate = picker_with_folders(ProjectPickerStyle::Modal);
    let blank = " \u{3000}\t".to_string();
    delegate.start_create_folder(None);
    assert!(matches!(delegate.commit_folder_edit(Some(&blank)), FolderCommit::Cancelled));
    assert_eq!(delegate.folder_edit, None);
    delegate.start_create_folder(None);
    assert!(matches!(delegate.commit_folder_edit(None), FolderCommit::Cancelled));
    assert_eq!(delegate.filtered_entries.last(), Some(&ProjectPickerEntry::NewFolder));
}

#[test]
fn a_name_that_is_taken_is_rejected() {
    let mut delegate = picker_with_folders(ProjectPickerStyle::Modal);
    delegate.start_create_folder(Some(pending("kept")));
    let name = " wORK ".to_string();
    assert!(matches!(delegate.commit_folder_edit(Some(&name)), FolderCommit::Rejected));
    assert_eq!(
        delegate.folder_edit_error.as_deref(),
        Some("A folder named \"wORK\" already exists")
    );
    assert_eq!(delegate.folder_edit, Some(FolderEdit::Create));
    assert!(delegate.pending_assign_after_create.is_some());
}

#[test]
fn a_folder_may_keep_its_own_name() {
    let mut delegate = picker_with_folders(ProjectPickerStyle::Modal);
    assert!(delegate.start_rename_folder(ProjectFolderId(1)));
    assert!(delegate.is_editing_folder(ProjectFolderId(1)));
    assert!(!delegate.is_editing_folder(ProjectFolderId(2)));
    let name = "WORK".to_string();
    match delegate.commit_folder_edit(Some(&name)) {
        FolderCommit::Save { edit, name, assign } => {
            assert_eq!(edit, FolderEdit::Rename(ProjectFolderId(1)));
            assert_eq!(name, "WORK");
            assert!(assign.is_none());
        }
        _ => panic!("the name should be saved"),
    }
    assert!(delegate.start_rename_folder(ProjectFolderId(1)));
    let other = "play".to_string();
    assert!(matches!(delegate.commit_folder_edit(Some(&other)), FolderCommit::Rejected));
}

#[test]
fn a_new_folder_takes_the_waiting_project() {
    let mut delegate = picker_with_folders(ProjectPickerStyle::Modal);
    delegate.start_create_folder(Some(pending("ssh:host")));
    let name = "  New one ".to_string();
    match delegate.commit_folder_edit(Some(&name)) {
        FolderCommit::Save { edit, name, assign } => {
            assert_eq!(edit, FolderEdit::Create);
            assert_eq!(name, "New one");
            assert_eq!(assign.unwrap().remote_identity, "ssh:host");
        }
        _ => panic!("the name should be saved"),
    }
    assert_eq!(delegate.folder_edit, None);
    delegate.folder_saved(false, vec![folder(3, "New one")], Vec::new());
    assert_eq!(delegate.folder_edit_error.as_deref(), Some("Could not save folder"));
    assert_eq!(delegate.folders.len(), 1);
    assert!(!delegate.snap_selection_to_first_non_header_match);
}

#[test]
fn a_saved_folder_leaves_no_error() {
    let mut delegate = picker_with_folders(ProjectPickerStyle::Modal);
    delegate.folder_saved(true, vec![folder(3, "New one")], Vec::new());
    assert_eq!(delegate.folder_edit_error, None);
}

#[test]
fn drafts_are_neither_renamed_nor_deleted_from_the_database() {
    let mut delegate = picker_with_folders(ProjectPickerStyle::Modal);
    delegate.start_create_folder(None);
    assert!(!delegate.start_rename_folder(ProjectFolderId(-1)));
    assert!(!delegate.delete_user_folder(ProjectFolderId(-1)));
    assert_eq!(delegate.folder_edit, None);
    assert!(delegate.delete_user_folder(ProjectFolderId(2)));
}

#[test]
fn the_rename_action_takes_the_selected_folder() {
    let mut picker = RecentProjects { picker: picker_with_folders(ProjectPickerStyle::Modal) };
    picker.picker.set_selected_index(1);
    assert_eq!(picker.handle_rename_folder(), Some(("Play".to_string(), true)));
    assert_eq!(picker.picker.folder_edit, Some(FolderEdit::Rename(ProjectFolderId(2))));
    picker.picker.set_selected_index(2);
    assert_eq!(picker.handle_rename_folder(), None);
    assert!(picker.handle_new_folder());
    assert!(picker.picker.is_creating_folder());
    assert_eq!(picker.handle_rename_folder(), Some((String::new(), false)));
    assert!(picker.picker.is_creating_folder());
}

#[test]
fn the_folder_menu_offers_the_other_folders() {
    let folders = vec![folder(1, "Work"), folder(2, "Play")];
    assert_eq!(populate_move_to_folder_menu(&Vec::new(), None), [FolderMenuItem::NewFolder]);
    assert_eq!(
        populate_move_to_folder_menu(&folders, None),
        [
            FolderMenuItem::Assign { folder_id: ProjectFolderId(1), name: "Work".into() },
            FolderMenuItem::Assign { folder_id: ProjectFolderId(2), name: "Play".into() },
            FolderMenuItem::Separator,
            FolderMenuItem::NewFolder,
        ]
    );
    assert_eq!(
        populate_move_to_folder_menu(&folders, Some(ProjectFolderId(1))),
        [
            FolderMenuItem::Assign { folder_id: ProjectFolderId(2), name: "Play".into() },
            FolderMenuItem::Separator,
            FolderMenuItem::NewFolder,
            FolderMenuItem::RemoveFromFolder,
        ]
    );
}

#[test]
fn cancelling_undoes_renaming() {
    let mut delegate = picker_with_folders(ProjectPickerStyle::Modal);
    delegate.set_selected_index(1);
    let before = format!("{:?}", delegate.filtered_entries);
    assert!(delegate.start_rename_folder(ProjectFolderId(2)));
    delegate.folder_edit_error = Some("no".into());
    delegate.cancel_folder_edit();
    assert_eq!(format!("{:?}", delegate.filtered_entries), before);
    assert_eq!(delegate.selected_index, 1);
    assert_eq!(delegate.folder_edit, None);
    assert_eq!(delegate.folder_edit_error, None);
}

#[test]
fn giving_up_during_a_search_adds_no_row() {
    let mut delegate =
        RecentProjectsDelegate::new(false, Vec::new(), Vec::new(), ProjectPickerStyle::Modal);
    delegate.update_matches("no-such-project", &no_matches(), None);
    delegate.start_create_folder(None);
    assert_eq!(delegate.filtered_entries, [draft()]);
    delegate.cancel_folder_edit();
    assert_eq!(delegate.filtered_entries, []);

    delegate.start_create_folder(None);
    let blank = " ".to_string();
    assert!(matches!(delegate.commit_folder_edit(Some(&blank)), FolderCommit::Cancelled));
    assert_eq!(delegate.filtered_entries, []);

    delegate.start_create_folder(None);
    assert!(!delegate.delete_user_folder(ProjectFolderId(-1)));
    assert_eq!(delegate.filtered_entries, []);
}

#[test]
fn giving_up_after_the_search_ended_brings_the_row_back() {
    let mut delegate = picker_with_folders(ProjectPickerStyle::Modal);
    let rows = |delegate: &RecentProjectsDelegate| format!("{:?}", delegate.filtered_entries);
    let everything = rows(&delegate);
    delegate.update_matches("no-such-project", &no_matches(), None);
    let nothing = rows(&delegate);

    delegate.start_create_folder(None);
    delegate.update_matches("", &no_matches(), None);
    delegate.cancel_folder_edit();
    assert_eq!(rows(&delegate), everything);

    delegate.start_create_folder(None);
    delegate.update_matches("no-such-project", &no_matches(), None);
    delegate.cancel_folder_edit();
    assert_eq!(rows(&delegate), nothing);
}

#[test]
fn one_draft_is_listed_while_a_folder_is_created() {
    let mut delegate = picker_with_folders(ProjectPickerStyle::Modal);
    delegate.start_create_folder(None);
    for query in ["", "no-such-project"] {
        delegate.update_matches(query, &no_matches(), None);
        let drafts = delegate.filtered_entries.iter().filter(|entry| **entry == draft());
        assert_eq!(drafts.count(), 1, "{query}");
    }
}

#[test]
fn a_folder_that_was_not_saved_takes_no_project() {
    let waiting = assignment_after_save(true, Some(pending("host")));
    assert_eq!(waiting.map(|pending| pending.remote_identity), Some("host".to_string()));
    assert!(assignment_after_save(false, Some(pending("host"))).is_none());
    assert!(assignment_after_save(true, None).is_none());
}
