//! Texts, paths, highlights, and the names of projects and folders.
use recent_projects::highlight::{highlights_for_path, highlights_for_paths};
use recent_projects::model::{
    RecentWorkspace, RemoteConnection, RemoteKind, SerializedWorkspaceLocation, Timestamp,
    WorkspaceId, WorktreeId,
};
use recent_projects::open_folders::{
    get_branch_for_worktree, get_open_folders, open_folder_labels, open_folder_paths,
    sort_by_keys, OpenWorktree, RepositoryInfo,
};
use recent_projects::path::{PathComponent, PathList, PathPrefix, ProjectPath};
use recent_projects::recents::{
    detail_for, get_recent_projects, recent_project_labels, recent_project_paths,
};
use recent_projects::text::{
    chars_of, eq_ignore_ascii_case, find_last, is_text_before, is_white_space, join,
    len_in_bytes, trim, trim_end, trim_start,
};
use std::path::{Component, Path};

fn project_path(text: &str) -> ProjectPath {
    let path = Path::new(text);
    let components = path
        .components()
        .map(|component| match component {
            Component::Prefix(_) => unreachable!("these paths have no prefix"),
            Component::RootDir => PathComponent::RootDir,
            Component::CurDir => PathComponent::CurDir,
            Component::ParentDir => PathComponent::ParentDir,
            Component::Normal(name) => {
                PathComponent::Normal(name.to_str().unwrap().as_bytes().to_vec())
            }
        })
        .collect();
    ProjectPath {
        raw: text.as_bytes().to_vec(),
        components,
        text: text.to_string(),
        compact: text.to_string(),
        compact_file_name: path
            .file_name()
            .map(|name| name.to_str().unwrap().to_string()),
    }
}

fn path_list(texts: &[&str]) -> PathList {
    let mut sorted: Vec<&str> = texts.to_vec();
    sorted.sort_by_key(|text| Path::new(*text));
    PathList {
        paths: sorted.iter().map(|text| project_path(text)).collect(),
        ordered_paths: texts.iter().map(|text| project_path(text)).collect(),
    }
}

fn texts(paths: &[ProjectPath]) -> Vec<&str> {
    paths.iter().map(|path| path.text.as_str()).collect()
}

#[test]
fn white_space_is_that_of_unicode() {
    for code in 0..=0x10ffff_u32 {
        if let Some(c) = char::from_u32(code) {
            assert_eq!(is_white_space(c), c.is_whitespace(), "{code:x}");
        }
    }
}

#[test]
fn trimming_agrees_with_str() {
    for text in ["", " ", "a", " a ", "\t\n a b \u{2003}", "\u{feff}x ", "é \u{a0}"] {
        assert_eq!(trim(text), text.trim());
        assert_eq!(trim_start(text), text.trim_start());
        assert_eq!(trim_end(text), text.trim_end());
        assert_eq!(chars_of(text), text.chars().collect::<Vec<_>>());
    }
}

#[test]
fn comparing_agrees_with_str() {
    let samples = ["", "a", "A", "b", "é", "É", "aa", "ab", "Z", "z", "日本", "\u{10000}", "\u{ffff}"];
    for a in samples {
        for b in samples {
            assert_eq!(eq_ignore_ascii_case(a, b), a.eq_ignore_ascii_case(b), "{a} {b}");
            assert_eq!(is_text_before(a, b), a < b, "{a} {b}");
        }
    }
}

#[test]
fn joining_puts_the_separator_between() {
    let parts = |texts: &[&str]| texts.iter().map(|text| text.to_string()).collect::<Vec<_>>();
    assert_eq!(join(&parts(&[]), ", "), "");
    assert_eq!(join(&parts(&["a"]), ", "), "a");
    assert_eq!(join(&parts(&["a", "", "b"]), ", "), "a, , b");
}

#[test]
fn paths_are_ordered_as_std_orders_them() {
    let samples = ["", "/", "/a", "/a/b", "/ab", "/a-b", "a", "../a", "./a", "/a/", "/é", "b/c"];
    for a in samples {
        for b in samples {
            let (x, y) = (project_path(a), project_path(b));
            assert_eq!(x.same_path(&y), Path::new(a) == Path::new(b), "{a} {b}");
            assert_eq!(x.order_against(&y) < 0, Path::new(a) < Path::new(b), "{a} {b}");
            assert_eq!(x.starts_with(&y), Path::new(a).starts_with(b), "{a} {b}");
        }
    }
}

#[test]
fn the_order_of_display_does_not_count() {
    assert!(path_list(&["/b", "/a"]).same_paths(&path_list(&["/a", "/b"])));
    assert!(!path_list(&["/b"]).same_paths(&path_list(&["/a", "/b"])));
    assert!(!path_list(&["/b"]).same_paths(&path_list(&["/a"])));
}

#[test]
fn highlights_are_cut_to_the_path_and_its_name() {
    let (name, path) = highlights_for_path(&project_path("/ab/cd"), &vec![2, 10, 11, 14, 20], 10);
    assert_eq!(path.text, "/ab/cd");
    assert_eq!(path.highlight_positions, [0, 1, 4]);
    let name = name.unwrap();
    assert_eq!(name.text, "cd");
    assert_eq!(name.highlight_positions, [0]);
}

#[test]
fn the_root_has_no_name_to_highlight() {
    let (name, path) = highlights_for_path(&project_path("/"), &vec![0], 0);
    assert!(name.is_none());
    assert_eq!(path.highlight_positions, [0]);
}

#[test]
fn highlights_count_bytes() {
    let (name, path) = highlights_for_path(&project_path("/é/日"), &vec![1, 4, 5], 0);
    assert_eq!(path.highlight_positions, [1, 4, 5]);
    assert_eq!(name.unwrap().highlight_positions, [0, 1]);
}

#[test]
fn paths_are_highlighted_one_behind_another() {
    let paths = vec![project_path("/a"), project_path("/"), project_path("/bc")];
    let (names, texts) = highlights_for_paths(&paths, &vec![1, 2, 4, 5]).unwrap();
    assert_eq!(names.len(), 2);
    assert_eq!(names[0].highlight_positions, [0]);
    assert_eq!(names[1].highlight_positions, [0, 1]);
    assert_eq!(texts[0].highlight_positions, [1]);
    assert_eq!(texts[1].highlight_positions, [0]);
    assert_eq!(texts[2].highlight_positions, [1, 2]);
    assert!(highlights_for_paths(&paths, &vec![3, 1]).is_none());
}

fn workspace(id: i64, location: SerializedWorkspaceLocation, texts: &[&str]) -> RecentWorkspace {
    RecentWorkspace {
        workspace_id: WorkspaceId(id),
        location,
        paths: path_list(texts),
        identity_paths: path_list(texts),
        timestamp: Timestamp { seconds: id, nanoseconds: 0 },
    }
}

fn remote() -> SerializedWorkspaceLocation {
    SerializedWorkspaceLocation::Remote(RemoteConnection {
        kind: RemoteKind::Ssh,
        options: 1,
        identity: 1,
        persistence_key: "ssh".into(),
        display_name: "far".into(),
    })
}

fn workspaces() -> Vec<RecentWorkspace> {
    let local = || SerializedWorkspaceLocation::Local;
    vec![
        workspace(1, local(), &["/x/app", "/lib"]),
        workspace(2, remote(), &["/remote"]),
        workspace(3, local(), &["/y/app"]),
        workspace(4, local(), &["/here"]),
        workspace(5, local(), &["/lib"]),
    ]
}

#[test]
fn listed_paths_are_sorted_and_distinct() {
    let paths = recent_project_paths(&workspaces(), Some(WorkspaceId(4)));
    assert_eq!(texts(&paths), ["/lib", "/x/app", "/y/app"]);
    assert_eq!(texts(&recent_project_paths(&workspaces(), None)), [
        "/here", "/lib", "/x/app", "/y/app"
    ]);
}

#[test]
fn details_are_looked_up_by_path() {
    let paths = vec![project_path("/a"), project_path("/b")];
    assert_eq!(detail_for(&paths, &vec![3, 4], &project_path("/b")), 4);
    assert_eq!(detail_for(&paths, &vec![3, 4], &project_path("/c")), 0);
    assert_eq!(detail_for(&paths, &vec![3], &project_path("/b")), 0);
}

#[test]
fn labels_are_wanted_for_the_listed_workspaces() {
    let current = Some(WorkspaceId(4));
    let all = recent_project_paths(&workspaces(), current);
    let requests = recent_project_labels(&workspaces(), current, &all, &vec![0, 1, 2]);
    let wanted: Vec<Vec<(&str, usize)>> = requests
        .iter()
        .map(|of_workspace| {
            of_workspace
                .iter()
                .map(|request| (request.path.text.as_str(), request.detail))
                .collect()
        })
        .collect();
    assert_eq!(
        wanted,
        [vec![("/x/app", 1), ("/lib", 0)], vec![("/y/app", 2)], vec![("/lib", 0)]]
    );
}

#[test]
fn recent_projects_are_local_and_elsewhere() {
    let labels = vec![
        vec!["x/app".to_string(), "lib".to_string()],
        vec![String::new()],
        vec!["lib".to_string()],
    ];
    let entries = get_recent_projects(&workspaces(), Some(WorkspaceId(4)), None, &labels);
    assert_eq!(entries.len(), 3);
    assert_eq!(entries[0].name, "x/app, lib");
    assert_eq!(entries[0].full_path, "/x/app\n/lib");
    assert_eq!(texts(&entries[0].paths), ["/lib", "/x/app"]);
    assert_eq!(entries[0].workspace_id, WorkspaceId(1));
    assert_eq!(entries[0].timestamp, Timestamp { seconds: 1, nanoseconds: 0 });
    assert_eq!(entries[1].name, "");
    assert_eq!(entries[1].workspace_id, WorkspaceId(3));
    assert_eq!(entries[2].workspace_id, WorkspaceId(5));
}

#[test]
fn the_limit_bounds_the_entries() {
    let labels = Vec::new();
    assert_eq!(get_recent_projects(&workspaces(), None, Some(2), &labels).len(), 2);
    assert_eq!(get_recent_projects(&workspaces(), None, Some(0), &labels).len(), 0);
    assert_eq!(get_recent_projects(&workspaces(), None, Some(9), &labels).len(), 4);
}

fn worktree(id: usize, path: &str) -> OpenWorktree {
    OpenWorktree { id: WorktreeId(id), path: project_path(path) }
}

fn repository(path: &str, branch: Option<&str>) -> RepositoryInfo {
    RepositoryInfo {
        path: project_path(path),
        branch: branch.map(|branch| branch.to_string()),
    }
}

#[test]
fn the_innermost_repository_gives_the_branch() {
    let repositories = vec![
        repository("/a", Some("outer")),
        repository("/a/b", Some("inner")),
        repository("/a/bc", Some("other")),
        repository("/d", None),
    ];
    let branch = |path: &str| get_branch_for_worktree(&project_path(path), &repositories);
    assert_eq!(branch("/a/b/c").as_deref(), Some("inner"));
    assert_eq!(branch("/a/b").as_deref(), Some("inner"));
    assert_eq!(branch("/a/x").as_deref(), Some("outer"));
    assert_eq!(branch("/d/e"), None);
    assert_eq!(branch("/e"), None);
}

#[test]
fn the_last_of_equal_repositories_gives_the_branch() {
    let repositories = vec![repository("/a", Some("first")), repository("/a", Some("last"))];
    assert_eq!(
        get_branch_for_worktree(&project_path("/a"), &repositories).as_deref(),
        Some("last")
    );
}

#[test]
fn open_folders_are_sorted_without_regard_to_case() {
    let worktrees = vec![worktree(1, "/w/b"), worktree(2, "/w/C"), worktree(3, "/w/a")];
    let labels = vec!["b".to_string(), "A".to_string(), "a".to_string()];
    let folders = get_open_folders(
        &worktrees,
        &None,
        &vec![repository("/w", Some("main"))],
        &None,
        &labels,
    );
    let names: Vec<(&str, usize, bool)> = folders
        .iter()
        .map(|folder| (folder.name.as_str(), folder.worktree_id.0, folder.is_active))
        .collect();
    assert_eq!(names, [("A", 2, false), ("a", 3, false), ("b", 1, true)]);
    assert_eq!(folders[0].branch.as_deref(), Some("main"));
    assert_eq!(folders[0].path.text, "/w/C");
}

#[test]
fn names_are_lowered_beyond_ascii() {
    let worktrees = vec![worktree(1, "/w/1"), worktree(2, "/w/2")];
    let labels = vec!["é".to_string(), "É a".to_string()];
    let folders = get_open_folders(&worktrees, &None, &Vec::new(), &None, &labels);
    assert_eq!(folders[0].name, "é");
    let labels = vec!["éb".to_string(), "ÉA".to_string()];
    let folders = get_open_folders(&worktrees, &None, &Vec::new(), &None, &labels);
    assert_eq!(folders[0].name, "ÉA");
}

#[test]
fn the_active_repository_marks_the_active_folder() {
    let worktrees = vec![worktree(1, "/a"), worktree(2, "/b/x"), worktree(3, "/b/y")];
    let labels = vec!["1".to_string(), "2".to_string(), "3".to_string()];
    let active = |repository: Option<&str>| {
        let repository = repository.map(project_path);
        get_open_folders(&worktrees, &repository, &Vec::new(), &None, &labels)
            .iter()
            .map(|folder| folder.is_active)
            .collect::<Vec<_>>()
    };
    assert_eq!(active(None), [true, false, false]);
    assert_eq!(active(Some("/b")), [false, true, false]);
    assert_eq!(active(Some("/c")), [false, false, false]);
}

#[test]
fn a_single_folder_is_not_listed() {
    let labels = vec!["1".to_string()];
    assert!(get_open_folders(&vec![worktree(1, "/a")], &None, &Vec::new(), &None, &labels)
        .is_empty());
}

#[test]
fn folder_labels_are_wanted_for_each_folder() {
    let worktrees = vec![worktree(1, "/b"), worktree(2, "/a"), worktree(3, "/b")];
    let all = open_folder_paths(&worktrees);
    assert_eq!(texts(&all), ["/a", "/b"]);
    let wanted: Vec<(String, usize)> = open_folder_labels(&worktrees, &all, &vec![5, 6])
        .into_iter()
        .map(|request| (request.path.text, request.detail))
        .collect();
    assert_eq!(wanted, [("/b".into(), 6), ("/a".into(), 5), ("/b".into(), 6)]);
}

#[test]
fn sorting_by_keys_keeps_ties_in_order() {
    let worktrees = vec![worktree(1, "/1"), worktree(2, "/2"), worktree(3, "/3")];
    let labels = vec!["x".to_string(), "x".to_string(), "x".to_string()];
    let entries = get_open_folders(&worktrees, &None, &Vec::new(), &None, &labels);
    let keys = vec!["k".to_string(), "j".to_string(), "k".to_string()];
    let sorted: Vec<usize> = sort_by_keys(entries, keys)
        .iter()
        .map(|entry| entry.worktree_id.0)
        .collect();
    assert_eq!(sorted, [2, 1, 3]);
}

#[test]
fn names_are_found_before_trailing_separators() {
    let (name, path) = highlights_for_path(&project_path("/a/foo/"), &vec![3], 0);
    let name = name.expect("the path ends in a name");
    assert_eq!(name.text, "foo");
    assert_eq!(name.highlight_positions, [0]);
    assert_eq!(path.text, "/a/foo/");
    assert_eq!(path.highlight_positions, [3]);

    let (name, path) = highlights_for_path(&project_path("/foo/x/foo//."), &vec![1, 7, 9], 0);
    let name = name.expect("the path ends in a name");
    assert_eq!(name.text, "foo");
    assert_eq!(name.highlight_positions, [0, 2]);
    assert_eq!(path.highlight_positions, [1, 7, 9]);
}

#[test]
fn a_name_from_elsewhere_is_not_highlighted() {
    let mut path = project_path("/a/foo");
    path.compact_file_name = Some("bar".to_string());
    assert!(highlights_for_paths(&vec![path], &vec![3]).is_none());
    assert!(highlights_for_paths(&vec![project_path("/a/foo")], &vec![3]).is_some());
}

#[test]
fn the_last_occurrence_is_that_of_str() {
    for whole in ["", "a", "aaa", "abcabc", "/a/foo/", "né/né", "日本日"] {
        assert_eq!(len_in_bytes(whole), whole.len());
        for part in ["", "a", "aa", "abc", "foo", "é", "日", "longer than any of them"] {
            assert_eq!(find_last(whole, part), whole.rfind(part), "{whole} {part}");
        }
    }
}

fn prefixed(prefix: PathPrefix) -> ProjectPath {
    ProjectPath {
        components: vec![PathComponent::Prefix(prefix), PathComponent::RootDir],
        ..project_path("")
    }
}

#[test]
fn prefixes_are_told_apart_by_what_they_name() {
    let bytes = |text: &str| text.as_bytes().to_vec();
    assert!(prefixed(PathPrefix::Disk(b'c')).same_path(&prefixed(PathPrefix::Disk(b'C'))));
    assert!(!prefixed(PathPrefix::Disk(b'C')).same_path(&prefixed(PathPrefix::Disk(b'D'))));
    assert!(!prefixed(PathPrefix::Disk(b'C')).same_path(&prefixed(PathPrefix::VerbatimDisk(b'C'))));

    let in_order = [
        PathPrefix::Verbatim(bytes("z")),
        PathPrefix::VerbatimUnc(bytes("s"), bytes("a")),
        PathPrefix::VerbatimDisk(b'C'),
        PathPrefix::DeviceNs(bytes("COM1")),
        PathPrefix::Unc(bytes("s"), bytes("a")),
        PathPrefix::Unc(bytes("s"), bytes("b")),
        PathPrefix::Unc(bytes("sa"), bytes("a")),
        PathPrefix::Disk(b'c'),
        PathPrefix::Disk(b'D'),
    ];
    for (i, a) in in_order.iter().enumerate() {
        for (j, b) in in_order.iter().enumerate() {
            let order = prefixed(a.clone()).order_against(&prefixed(b.clone()));
            assert_eq!(order < 0, i < j, "{i} {j}");
            assert_eq!(order == 0, i == j, "{i} {j}");
        }
    }
}
