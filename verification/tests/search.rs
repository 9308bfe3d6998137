//! The extended search, on folders that exist only here.

use filebrowser::path::System;
use filebrowser::provider::FilebrowserProvider;
use filebrowser::search::{Found, SearchResult, MAX_ITEMS};

/// Entries of the folders of a small disk: the folder's path, the name, and
/// whether it is a folder itself.
type Disk<'a> = Vec<(&'a str, &'a str, Option<bool>)>;

const ROOT: &str = "/tmp/folder";

fn search(p: &FilebrowserProvider<()>, disk: &Disk) -> Vec<SearchResult> {
    let mut search = p.run_extended_search(System::Slashes, ROOT.to_owned(), ROOT.to_owned());
    while let Some(folder) = search.next_folder() {
        let entries = disk
            .iter()
            .filter(|(dir, _, _)| *dir == folder.place)
            .map(|(dir, name, is_dir)| Found {
                name: name.to_string(),
                place: format!("{dir}/{name}"),
                path: format!("{dir}/{name}"),
                is_dir: *is_dir,
            })
            .collect();
        search.visit(folder, entries);
    }
    search.into_results()
}

/// An entry whose path the search is to work out by itself.
fn found<P>(name: &str, place: P, is_dir: bool) -> Found<P> {
    let path = "not asked for".to_owned();
    Found { name: name.to_owned(), place, path, is_dir: Some(is_dir) }
}

fn provider() -> FilebrowserProvider<()> {
    let mut p = FilebrowserProvider::with_desktop(());
    p.set_current_path(ROOT);
    p
}

#[test]
fn test_extended_search_finds_nested_files() {
    let disk: Disk =
        vec![(ROOT, "sub", Some(true)), ("/tmp/folder/sub", "deep.txt", Some(false))];
    let results = search(&provider(), &disk);
    assert!(results.iter().any(|r| r.label.contains("deep.txt")));
}

#[test]
fn test_extended_search_dir_prefix() {
    let results = search(&provider(), &vec![(ROOT, "mydir", Some(true))]);
    assert!(results.iter().any(|r| r.label.starts_with("+ ")));
}

#[test]
fn test_extended_search_file_prefix() {
    let results = search(&provider(), &vec![(ROOT, "myfile.txt", Some(false))]);
    assert!(results.iter().any(|r| r.label.starts_with("- ")));
}

#[test]
fn test_extended_search_empty_dir() {
    assert_eq!(search(&provider(), &vec![]).len(), 0);
}

#[test]
fn test_extended_search_flat_files() {
    let disk: Disk = vec![
        (ROOT, "alpha.txt", Some(false)),
        (ROOT, "beta.txt", Some(false)),
        (ROOT, "gamma.txt", Some(false)),
    ];
    let results = search(&provider(), &disk);
    assert_eq!(results.len(), 3);
    for item in &results {
        assert!(item.label.starts_with("- "), "flat files should have '- ' prefix");
        assert_eq!(item.breadcrumb, "", "flat files should have empty breadcrumb");
        assert!(item.nav_path.contains(ROOT));
    }
}

#[test]
fn test_extended_search_symlink_not_followed() {
    // A link is no folder, whatever it leads to.
    let disk: Disk = vec![(ROOT, "loop", Some(false)), (ROOT, "regular.txt", Some(false))];
    let results = search(&provider(), &disk);
    assert_eq!(results.len(), 2, "symlink should not be traversed as dir");
    let loop_item = results.iter().find(|r| r.label.contains("loop"));
    assert!(loop_item.is_some(), "loop symlink should appear in results");
    assert!(loop_item.unwrap().label.starts_with("- "), "symlink should show as file, not dir");
}

#[test]
fn test_extended_search_skips_hidden_when_disabled() {
    let mut p = provider();
    let disk: Disk = vec![
        (ROOT, ".git", Some(true)),
        ("/tmp/folder/.git", "config", Some(false)),
        (ROOT, "visible.txt", Some(false)),
    ];
    let results = search(&p, &disk);
    assert!(results.iter().any(|r| r.label.contains("visible.txt")));
    assert!(
        !results.iter().any(|r| r.label.contains(".git")),
        "extended search must agree with the listing"
    );
    assert!(
        !results.iter().any(|r| r.label.contains("config")),
        "hidden directories must not be descended into"
    );

    p.handle_command("show/hide hidden files", "", 0).unwrap();
    let results = search(&p, &disk);
    assert!(results.iter().any(|r| r.label.contains(".git")));
    assert!(results.iter().any(|r| r.label.contains("config")));
}

#[test]
fn the_nearest_come_first_with_their_breadcrumbs() {
    let disk: Disk = vec![
        (ROOT, "a", Some(true)),
        (ROOT, "z.txt", Some(false)),
        ("/tmp/folder/a", "b", Some(true)),
        ("/tmp/folder/a", "gone", None),
        ("/tmp/folder/a", "c.txt", Some(false)),
        ("/tmp/folder/a/b", "d.txt", Some(false)),
    ];
    let results = search(&provider(), &disk);
    let lines: Vec<(&str, &str, &str)> = results
        .iter()
        .map(|r| (r.label.as_str(), r.breadcrumb.as_str(), r.nav_path.as_str()))
        .collect();
    assert_eq!(
        lines,
        vec![
            ("+ a", "", "/tmp/folder/a"),
            ("- z.txt", "", "/tmp/folder/z.txt"),
            ("+ b", "a > ", "/tmp/folder/a/b"),
            ("- c.txt", "a > ", "/tmp/folder/a/c.txt"),
            ("- d.txt", "a > b > ", "/tmp/folder/a/b/d.txt"),
        ]
    );
}

#[test]
fn there_are_never_more_results_than_allowed() {
    assert_eq!(MAX_ITEMS, 50_000);
    let mut search = provider().run_extended_search(System::Slashes, 0, "/".to_owned());
    let folder = search.next_folder().unwrap();
    let entries = (0..60_000)
        .map(|i| found(&format!("d{i}"), i, true))
        .collect();
    search.visit(folder, entries);
    assert!(search.next_folder().is_none());
    assert_eq!(search.queue.len(), 50_000);
    let results = search.into_results();
    assert_eq!(results.len(), 50_000);
    assert_eq!(results[49_999].label, "+ d49999");
    assert_eq!(results[0].nav_path, "/d0");
}

#[test]
fn folders_are_looked_into_in_turn() {
    let mut search = provider().run_extended_search(System::Slashes, "root", "/r".to_owned());
    let folder = search.next_folder().unwrap();
    assert_eq!((folder.place, folder.path.as_str()), ("root", "/r"));
    let dir = |name: &str, place| found(name, place, true);
    search.visit(folder, vec![dir("a", "first"), dir("b", "second")]);
    let folder = search.next_folder().unwrap();
    assert_eq!(folder.place, "first");
    search.visit(folder, vec![dir("c", "third")]);
    let folder = search.next_folder().unwrap();
    assert_eq!(folder.place, "second");
    search.visit(folder, vec![]);
    let folder = search.next_folder().unwrap();
    assert_eq!((folder.place, folder.breadcrumb.as_str()), ("third", "a > c > "));
    assert!(search.next_folder().is_none());
}

#[test]
fn with_drives_paths_are_joined_with_backslashes() {
    for (root, outer, inner) in [
        ("C:\\d", "C:\\d\\x", "C:\\d\\x\\y.txt"),
        ("C:\\", "C:\\x", "C:\\x\\y.txt"),
        ("C:/", "C:/x", "C:/x\\y.txt"),
        ("C:", "C:x", "C:x\\y.txt"),
        ("\\\\host\\share", "\\\\host\\share\\x", "\\\\host\\share\\x\\y.txt"),
    ] {
        let mut search = provider().run_extended_search(System::Drives, 0, root.to_owned());
        let folder = search.next_folder().unwrap();
        let x = found("x", 1, true);
        search.visit(folder, vec![x]);
        let folder = search.next_folder().unwrap();
        assert_eq!(folder.path, outer);
        let y = found("y.txt", 2, false);
        search.visit(folder, vec![y]);
        let results = search.into_results();
        assert_eq!(results[0].nav_path, outer);
        assert_eq!(results[1].nav_path, inner);
        assert_eq!(results[1].breadcrumb, "x > ");
    }
}

#[test]
fn results_come_level_by_level_up_to_the_limit() {
    let mut search = provider().run_extended_search(System::Slashes, 0, "/".to_owned());
    let dir = |name: String, place| found(&name, place, true);
    let file = |name: String| found(&name, 0, false);
    let root = search.next_folder().unwrap();
    search.visit(root, vec![dir("a".to_owned(), 1), dir("b".to_owned(), 2)]);
    let a = search.next_folder().unwrap();
    search.visit(a, (0..30_000).map(|i| file(format!("a{i}"))).collect());
    let b = search.next_folder().unwrap();
    search.visit(b, (0..30_000).map(|i| file(format!("b{i}"))).collect());
    assert!(search.next_folder().is_none());
    let results = search.into_results();
    assert_eq!(results.len(), 50_000);
    assert_eq!(results[2].label, "- a0");
    assert_eq!(results[30_002].label, "- b0");
    assert_eq!(results[49_999].label, "- b19997");
}

#[test]
fn where_the_system_rewrites_a_path_its_own_is_taken() {
    let root = "\\\\?\\C:\\a\\.\\b";
    let written = "\\\\?\\C:\\a\\b\\x";
    let mut search = provider().run_extended_search(System::Drives, 0, root.to_owned());
    let folder = search.next_folder().unwrap();
    let x = Found { path: written.to_owned(), ..found("x", 1, true) };
    search.visit(folder, vec![x]);
    let folder = search.next_folder().unwrap();
    assert_eq!(folder.path, written);
    assert_eq!(search.into_results()[0].nav_path, written);
}
