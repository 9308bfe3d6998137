//! The order in which a copy takes up its items, and what it answers.

use filebrowser::copy::{copy_recursive, CopyItem, CopyOutcome};
use filebrowser::provider::FilebrowserProvider;

/// Copies below `src` on a disk of folders (with their entries) and files, and
/// tells what was done and whether all of it succeeded.
fn copy(
    src: &str,
    dst: &str,
    folders: &[(&str, &[&str])],
    failing: &str,
) -> (bool, Vec<(String, String)>) {
    let mut work = copy_recursive(src.to_owned(), dst.to_owned());
    let mut done = vec![];
    while let Some(item) = work.next_item() {
        done.push((item.src.clone(), item.dst.clone()));
        let outcome = match folders.iter().find(|(path, _)| *path == item.src) {
            Some((_, names)) => CopyOutcome::Folder(
                names
                    .iter()
                    .map(|name| CopyItem {
                        src: format!("{}/{name}", item.src),
                        dst: format!("{}/{name}", item.dst),
                    })
                    .collect(),
            ),
            None => CopyOutcome::File(item.src != failing),
        };
        work.report(outcome);
    }
    (work.succeeded(), done)
}

#[test]
fn test_copy_file() {
    let names = FilebrowserProvider::with_desktop(()).copy_item("src.txt", "dst.txt");
    let (ok, done) = copy(&names.src, &names.dst, &[], "");
    assert!(ok);
    assert_eq!(done, vec![("src.txt".to_owned(), "dst.txt".to_owned())]);
}

#[test]
fn test_copy_directory() {
    let names = FilebrowserProvider::with_desktop(()).copy_item("srcdir", "cpdir");
    let (ok, done) = copy(&names.src, &names.dst, &[("srcdir", &["inner.txt"])], "");
    assert!(ok);
    assert_eq!(
        done,
        vec![
            ("srcdir".to_owned(), "cpdir".to_owned()),
            ("srcdir/inner.txt".to_owned(), "cpdir/inner.txt".to_owned()),
        ]
    );
}

#[test]
fn what_is_in_a_folder_comes_before_what_follows_it() {
    let folders: &[(&str, &[&str])] = &[("s", &["a", "z"]), ("s/a", &["b", "c"])];
    let (ok, done) = copy("s", "d", folders, "");
    assert!(ok);
    let order: Vec<&str> = done.iter().map(|(src, _)| src.as_str()).collect();
    assert_eq!(order, vec!["s", "s/a", "s/a/b", "s/a/c", "s/z"]);
}

#[test]
fn the_first_failure_ends_the_copy() {
    let folders: &[(&str, &[&str])] = &[("s", &["a", "z"]), ("s/a", &["b", "c"])];
    let (ok, done) = copy("s", "d", folders, "s/a/b");
    assert!(!ok);
    let order: Vec<&str> = done.iter().map(|(src, _)| src.as_str()).collect();
    assert_eq!(order, vec!["s", "s/a", "s/a/b"]);
}

#[test]
fn a_folder_that_is_not_made_or_not_listed_fails_the_copy() {
    let mut work = copy_recursive(1, 2);
    assert_eq!(work.next_item().map(|i| (i.src, i.dst)), Some((1, 2)));
    work.report(CopyOutcome::FolderNotMade);
    assert!(!work.succeeded());
    assert!(work.next_item().is_none());

    let mut work = copy_recursive(1, 2);
    work.next_item();
    work.report(CopyOutcome::FolderNotListed);
    assert!(!work.succeeded());

    let mut work = copy_recursive(1, 2);
    work.next_item();
    work.report(CopyOutcome::Folder(vec![]));
    assert!(work.next_item().is_none());
    assert!(work.succeeded());
}
