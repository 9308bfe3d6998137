//! What a folder's list shows, in which order, and how each line reads.

use filebrowser::element::Element;
use filebrowser::entry::{collect_raw_entries, Metadata, RawEntry, Timestamp};
use filebrowser::listing::{arrange, SortMode};
use filebrowser::markup::entry_name;
use filebrowser::provider::FilebrowserProvider;
use filebrowser::rows::{list_entries, PropertyView};
use sicompass_sdk::tags;

fn provider() -> FilebrowserProvider<()> {
    let mut p = FilebrowserProvider::with_desktop(());
    p.set_current_path("/tmp/folder");
    p
}

fn meta() -> Metadata {
    Metadata {
        is_symlink: false,
        is_dir: false,
        target_is_dir: None,
        mtime: Some(Timestamp { secs: 1_000_000, nanos: 0 }),
        size: 2,
        mode: 0o100644,
        nlink: 1,
        uid: 0,
        gid: 0,
        owner: Some("root".to_owned()),
        group: Some("root".to_owned()),
        date: "Jan 12  1970".to_owned(),
    }
}

fn file(name: &str) -> (String, Option<Metadata>) {
    (name.to_owned(), Some(meta()))
}

fn file_at(name: &str, secs: i64) -> (String, Option<Metadata>) {
    let at = Timestamp { secs, nanos: 0 };
    (name.to_owned(), Some(Metadata { mtime: Some(at), ..meta() }))
}

fn folder(name: &str) -> (String, Option<Metadata>) {
    (name.to_owned(), Some(Metadata { is_dir: true, mode: 0o040755, ..meta() }))
}

fn link(name: &str, target_is_dir: Option<bool>) -> (String, Option<Metadata>) {
    let m = Metadata { is_symlink: true, target_is_dir, mode: 0o120777, ..meta() };
    (name.to_owned(), Some(m))
}

fn fetch(p: &FilebrowserProvider<()>, found: Vec<(String, Option<Metadata>)>) -> Vec<Element> {
    p.list_directory(&collect_raw_entries(Some(found)), PropertyView::Long)
}

fn label(e: &Element) -> &str {
    e.as_str().or_else(|| e.as_obj().map(|o| o.key.as_str())).unwrap_or("")
}

fn names(items: &[Element]) -> Vec<String> {
    items.iter().map(|e| tags::strip_display(label(e))).collect()
}

#[test]
fn test_fetch_empty_dir_only_meta() {
    let p = provider();
    assert_eq!(fetch(&p, vec![]).len(), 0);
}

#[test]
fn test_fetch_nonexistent_path_returns_only_meta() {
    let mut p = FilebrowserProvider::with_desktop(());
    p.set_current_path("/nonexistent/path/xyz/abc");
    let items = p.list_directory(&collect_raw_entries(None), PropertyView::Long);
    assert_eq!(items.len(), 0);
}

#[test]
fn test_fetch_file_is_str() {
    let p = provider();
    let items = fetch(&p, vec![file("hello.txt")]);
    assert!(!items.is_empty());
    assert!(items[0].as_str().is_some());
}

#[test]
fn test_fetch_dir_is_obj() {
    let p = provider();
    let items = fetch(&p, vec![folder("subdir")]);
    assert!(!items.is_empty());
    assert!(items[0].as_obj().is_some());
}

#[test]
fn test_fetch_item_wrapped_in_input_tag() {
    let p = provider();
    let items = fetch(&p, vec![file("notes.txt")]);
    let label = items[0].as_str().unwrap();
    assert!(tags::has_input(label));
    assert_eq!(tags::strip_display(label), "notes.txt");
    assert_eq!(label, "<input>notes.txt</input>");
}

#[test]
fn test_sort_alpha() {
    let mut p = provider();
    p.sort_mode = SortMode::Alpha;
    let items = fetch(&p, vec![file("zebra.txt"), file("apple.txt")]);
    assert_eq!(names(&items), vec!["apple.txt".to_string(), "zebra.txt".to_string()]);
}

#[test]
fn test_handle_command_sort_alpha() {
    let mut p = provider();
    p.handle_command("sort alphanumerically", "", 0).unwrap();
    assert_eq!(p.sort_mode, SortMode::Alpha);
    let items = fetch(&p, vec![file("cherry.txt"), file("apple.txt"), file("banana.txt")]);
    assert_eq!(names(&items), vec!["apple.txt", "banana.txt", "cherry.txt"]);
}

#[test]
fn test_sort_alpha_natural_order() {
    let mut p = provider();
    p.handle_command("sort alphanumerically", "", 0).unwrap();
    let items = fetch(&p, vec![file("file10.txt"), file("file2.txt"), file("file1.txt")]);
    assert_eq!(
        names(&items),
        vec!["file1.txt", "file2.txt", "file10.txt"],
        "natural sort should order file2 before file10"
    );
}

#[test]
fn case_does_not_count_and_ties_stay_in_the_order_found() {
    let p = provider();
    let items = fetch(&p, vec![file("b"), file("File2"), file("file2"), file("FILE1"), file("A")]);
    assert_eq!(names(&items), vec!["A", "b", "FILE1", "File2", "file2"]);
}

#[test]
fn test_list_directory_chrono_sort() {
    let mut p = provider();
    p.sort_mode = SortMode::Chrono;
    let items = fetch(
        &p,
        vec![
            file_at("oldest.txt", 1_000_000),
            file_at("middle.txt", 2_000_000),
            file_at("newest.txt", 3_000_000),
        ],
    );
    assert_eq!(names(&items), vec!["newest.txt", "middle.txt", "oldest.txt"]);
}

#[test]
fn nanoseconds_count_and_a_missing_time_is_the_epoch() {
    let mut p = provider();
    p.sort_mode = SortMode::Chrono;
    let earlier = Metadata { mtime: Some(Timestamp { secs: 5, nanos: 1 }), ..meta() };
    let later = Metadata { mtime: Some(Timestamp { secs: 5, nanos: 2 }), ..meta() };
    let unknown = Metadata { mtime: None, ..meta() };
    let before = Metadata { mtime: Some(Timestamp { secs: -1, nanos: 999_999_999 }), ..meta() };
    let items = fetch(
        &p,
        vec![
            ("before".to_owned(), Some(before)),
            ("unknown".to_owned(), Some(unknown)),
            ("earlier".to_owned(), Some(earlier)),
            ("later".to_owned(), Some(later)),
        ],
    );
    assert_eq!(names(&items), vec!["later", "earlier", "unknown", "before"]);
}

#[test]
fn test_list_directory_hides_dotfiles_by_default() {
    let mut p = provider();
    let found = || vec![file(".DS_Store"), file("visible.txt"), folder(".git")];
    let labels = names(&fetch(&p, found()));
    assert!(labels.iter().any(|l| l == "visible.txt"));
    assert!(!labels.iter().any(|l| l == ".DS_Store"));
    assert!(!labels.iter().any(|l| l == ".git"));

    p.handle_command("show/hide hidden files", "", 0).unwrap();
    let labels = names(&fetch(&p, found()));
    assert!(labels.iter().any(|l| l == ".DS_Store"));
    assert!(labels.iter().any(|l| l == ".git"));
}

#[test]
fn test_symlinked_directory_is_navigable() {
    let p = provider();
    let items = fetch(&p, vec![folder("real"), link("link", Some(true))]);
    let link = items
        .iter()
        .find(|e| tags::strip_display(label(e)) == "link")
        .expect("symlink should be listed");
    assert!(link.as_obj().is_some());
}

#[test]
fn test_broken_symlink_is_not_a_directory() {
    let p = provider();
    let items = fetch(&p, vec![link("dangling", None)]);
    let link = items
        .iter()
        .find(|e| tags::strip_display(e.as_str().unwrap_or("")) == "dangling")
        .expect("broken symlink should still be listed");
    assert!(link.as_str().is_some(), "a broken link resolves to nothing");
}

#[test]
fn test_symlink_properties_still_show_link_mode() {
    let mut p = provider();
    p.show_properties = true;
    let items = fetch(&p, vec![folder("real"), link("link", Some(true))]);
    let key = items
        .iter()
        .filter_map(|e| e.as_obj())
        .find(|o| entry_name(&o.key) == "link")
        .map(|o| o.key.clone())
        .expect("symlink should be listed as a directory");
    assert!(key.starts_with('l'), "properties must still describe the link itself, got {key}");
}

#[test]
fn test_fetch_special_chars_in_filename() {
    let p = provider();
    let items = fetch(&p, vec![file("hello world.txt"), file("file-with-dashes.txt")]);
    assert_eq!(items.len(), 2);
}

#[test]
fn test_fetch_executable_always_shown() {
    let p = provider();
    let script = Metadata { mode: 0o100755, ..meta() };
    let items = fetch(&p, vec![("script.sh".to_owned(), Some(script)), file("data.txt")]);
    assert_eq!(items.len(), 2, "expected 2 files, got {}", items.len());
}

#[test]
fn test_fetch_symlink_appears_in_listing() {
    let p = provider();
    let items = fetch(&p, vec![file("real.txt"), link("link.txt", Some(false))]);
    assert_eq!(items.len(), 2);
    let names: Vec<String> =
        items.iter().filter_map(|e| e.as_str()).map(|s| tags::strip_display(s)).collect();
    assert!(names.contains(&"link.txt".to_string()));
}

#[test]
fn an_entry_that_vanished_is_left_out() {
    let entries =
        collect_raw_entries(Some(vec![file("a"), ("gone".to_owned(), None), file("b")]));
    let names: Vec<&str> = entries.iter().map(|e| e.name.as_str()).collect();
    assert_eq!(names, vec!["a", "b"]);
}

#[test]
fn properties_stand_before_the_input_field() {
    let mut p = provider();
    p.show_properties = true;
    let entries = collect_raw_entries(Some(vec![file("a.txt")]));
    let long = p.list_directory(&entries, PropertyView::Long);
    assert_eq!(
        long[0].as_str(),
        Some("-rw-r--r--  1 root     root         2 Jan 12  1970 <input>a.txt</input>")
    );
    let short = p.list_directory(&entries, PropertyView::Short);
    assert_eq!(short[0].as_str(), Some("        2 1970-01-12 13:46 <input>a.txt</input>"));
}

#[test]
fn a_listed_line_gives_back_the_name() {
    for show in [false, true] {
        for view in [PropertyView::Long, PropertyView::Short] {
            for name in ["a.txt", "with space", "<b>", "x:y", "\u{e9}t\u{e9}"] {
                let entries: Vec<RawEntry> = collect_raw_entries(Some(vec![file(name)]));
                let rows = list_entries(SortMode::Alpha, false, show, view, &entries);
                assert_eq!(entry_name(label(&rows[0])), name);
            }
        }
    }
}

#[test]
fn brackets_before_the_name_do_no_harm() {
    let odd = Metadata {
        owner: Some("<a>".to_owned()),
        group: Some("<inpu".to_owned()),
        date: "\\<input> < >".to_owned(),
        ..meta()
    };
    let entries = collect_raw_entries(Some(vec![("t>.txt".to_owned(), Some(odd))]));
    let rows = list_entries(SortMode::Alpha, false, true, PropertyView::Long, &entries);
    assert_eq!(entry_name(label(&rows[0])), "t>.txt");
}

#[test]
fn a_backslash_at_the_end_comes_back_without_properties() {
    for name in ["odd\\", "a>b\\", ">\\"] {
        let entries = collect_raw_entries(Some(vec![file(name)]));
        let rows = list_entries(SortMode::Alpha, false, false, PropertyView::Long, &entries);
        assert_eq!(entry_name(label(&rows[0])), name);
    }
}

#[test]
fn hiding_takes_entries_off_and_changes_nothing_else() {
    let names = [".b", "c", ".a", "B10", "b9", "a", ".c"];
    let entries = collect_raw_entries(Some(names.iter().map(|n| file(n)).collect()));
    for mode in [SortMode::Alpha, SortMode::Chrono] {
        let all = arrange(mode, true, &entries);
        let visible: Vec<usize> =
            all.into_iter().filter(|i| !names[*i].starts_with('.')).collect();
        assert_eq!(arrange(mode, false, &entries), visible);
    }
}

#[test]
fn each_shown_entry_is_listed_once() {
    let found: Vec<(String, Option<Metadata>)> =
        (0..40).map(|i| file(&format!("{}{}", if i % 5 == 0 { "." } else { "" }, 97 * i % 41))).collect();
    let entries = collect_raw_entries(Some(found));
    let mut places = arrange(SortMode::Alpha, true, &entries);
    places.sort();
    assert_eq!(places, (0..40).collect::<Vec<usize>>());
    let shown = arrange(SortMode::Alpha, false, &entries);
    assert_eq!(shown.len(), 32);
    assert!(shown.iter().all(|i| !entries[*i].name.starts_with('.')));
    let numbers: Vec<i32> = shown.iter().map(|i| entries[*i].name.parse().unwrap()).collect();
    assert!(numbers.windows(2).all(|w| w[0] < w[1]));
}
