//! The file browser's state: where it is, its commands, and what edits ask for.

use filebrowser::desktop::HostDesktop;
use filebrowser::element::{Element, I_PLACEHOLDER};
use filebrowser::listing::SortMode;
use filebrowser::markup::entry_name;
use filebrowser::path::System;
use filebrowser::provider::{edit_action, FileAction, FilebrowserProvider};
use sicompass_sdk::ffon::FfonElement;
use sicompass_sdk::placeholders;

fn fb() -> FilebrowserProvider<()> {
    FilebrowserProvider::with_desktop(())
}

fn make_provider() -> FilebrowserProvider<()> {
    let mut p = fb();
    p.set_current_path("/tmp/folder");
    p
}

fn is_rename(action: &FileAction, old: &str, new: &str) -> bool {
    matches!(action, FileAction::Rename { from, to } if from == old && to == new)
}

#[test]
fn test_rename_file() {
    let p = make_provider();
    let action = p.commit_edit("<input>old.txt</input>", "<input>new.txt</input>");
    assert!(is_rename(&action, "old.txt", "new.txt"));
}

#[test]
fn test_rename_directory() {
    let p = make_provider();
    let action = p.commit_edit("<input>olddir</input>", "<input>newdir</input>");
    assert!(is_rename(&action, "olddir", "newdir"));
}

#[test]
fn test_rename_same_name_returns_false() {
    let p = make_provider();
    let action = p.commit_edit("<input>file.txt</input>", "<input>file.txt</input>");
    assert!(matches!(action, FileAction::Refuse));
}

#[test]
fn test_commit_edit_rename_still_works() {
    let p = make_provider();
    assert!(is_rename(&p.commit_edit("alpha.txt", "beta.txt"), "alpha.txt", "beta.txt"));
}

#[test]
fn names_to_rename_lose_their_separators() {
    assert!(is_rename(&edit_action("old//", "new\\/"), "old", "new"));
    assert!(is_rename(&edit_action("a/\\", "b"), "a/", "b"));
}

#[test]
fn test_create_file() {
    let p = make_provider();
    let action = p.create_file("new_file.txt");
    assert!(matches!(action, FileAction::CreateFile(name) if name == "new_file.txt"));
}

#[test]
fn test_create_directory() {
    let p = make_provider();
    let action = p.create_directory("new_dir");
    assert!(matches!(action, FileAction::CreateDirectory(name) if name == "new_dir"));
}

#[test]
fn test_create_file_already_exists() {
    let p = make_provider();
    let first = p.create_file("existing.txt");
    let second = p.create_file("existing.txt");
    assert!(matches!(first, FileAction::CreateFile(name) if name == "existing.txt"));
    assert!(matches!(second, FileAction::CreateFile(name) if name == "existing.txt"));
}

#[test]
fn test_rename_nonexistent_returns_false() {
    // The rename is asked for; that there is nothing to rename, the disk tells.
    let p = make_provider();
    let action = p.commit_edit("<input>nonexistent.txt</input>", "<input>new.txt</input>");
    assert!(is_rename(&action, "nonexistent.txt", "new.txt"));
}

#[test]
fn test_create_file_empty_name_fails() {
    let p = make_provider();
    assert!(matches!(p.create_file(""), FileAction::Refuse));
    assert!(matches!(p.create_directory(""), FileAction::Refuse));
}

#[test]
fn test_commit_edit_empty_old_creates_file() {
    let p = make_provider();
    let action = p.commit_edit("", "notes.txt");
    assert!(matches!(action, FileAction::CreateFile(name) if name == "notes.txt"));
}

#[test]
fn test_commit_edit_empty_old_creates_directory() {
    let p = make_provider();
    let action = p.commit_edit("", "subdir:");
    assert!(matches!(action, FileAction::CreateDirectory(name) if name == "subdir"));
}

#[test]
fn test_commit_edit_empty_old_empty_new_returns_false() {
    let p = make_provider();
    assert!(matches!(p.commit_edit("", ""), FileAction::Refuse));
    assert!(matches!(p.commit_edit("", ":"), FileAction::Refuse));
}

#[test]
fn an_empty_field_is_no_name() {
    let p = make_provider();
    let action = p.commit_edit("<input></input>", "<input>a.txt</input>");
    assert!(matches!(action, FileAction::CreateFile(name) if name == "a.txt"));
}

#[test]
fn test_entry_name_strips_properties_prefix() {
    assert_eq!(entry_name("<input>file.txt</input>"), "file.txt");
    assert_eq!(
        entry_name("drwxr-xr-x 1 user group 4096 May 31 12:00 <input>Downloads</input>"),
        "Downloads"
    );
    assert_eq!(entry_name("plain"), "plain");
}

#[test]
fn a_name_is_read_from_the_first_field_only() {
    assert_eq!(entry_name("a <input>b</input> <input>c</input>"), "b");
    assert_eq!(entry_name("\\<input>b</input>"), sicompass_sdk::tags::strip_display("\\<input>b</input>"));
    assert_eq!(entry_name("</input>x<input>"), sicompass_sdk::tags::strip_display("</input>x<input>"));
    assert_eq!(entry_name("<b>bold</b>"), sicompass_sdk::tags::strip_display("<b>bold</b>"));
}

#[test]
fn test_push_pop_path() {
    let mut p = make_provider();
    p.push_path("child");
    assert!(p.current_path().ends_with("child"));
    p.pop_path();
    assert_eq!(p.current_path(), "/tmp/folder");
}

#[test]
fn test_pop_at_root_is_noop() {
    let mut p = fb();
    p.pop_path();
    assert_eq!(p.current_path(), "/");
}

#[test]
fn test_provider_path_starts_at_root() {
    let p = fb();
    assert_eq!(p.current_path(), "/");
    assert_eq!(FilebrowserProvider::new().current_path(), "/");
}

#[test]
fn test_commands_list() {
    let cmds = fb().commands();
    assert!(cmds.contains(&"create directory".to_string()));
    assert!(cmds.contains(&"create file".to_string()));
    assert!(cmds.contains(&"show/hide properties".to_string()));
}

#[test]
fn test_get_commands_returns_six() {
    let cmds = fb().commands();
    assert_eq!(cmds.len(), 6);
    assert!(cmds.contains(&"create directory".to_string()));
    assert!(cmds.contains(&"create file".to_string()));
    assert!(!cmds.contains(&"open file with".to_string()));
    assert!(cmds.contains(&"show/hide properties".to_string()));
    assert!(cmds.contains(&"show/hide hidden files".to_string()));
    assert!(cmds.contains(&"sort alphanumerically".to_string()));
    assert!(cmds.contains(&"sort chronologically".to_string()));
}

#[test]
fn test_handle_command_create_file_returns_input_elem() {
    let mut p = make_provider();
    let result = p.handle_command("create file", "", 0).unwrap();
    assert!(result.is_some());
    let elem = result.unwrap();
    assert!(elem.as_str().is_some());
    assert_eq!(elem.as_str(), Some("<input></input>"));
}

#[test]
fn test_handle_command_create_directory_returns_obj() {
    let mut p = make_provider();
    let result = p.handle_command("create directory", "", 0).unwrap();
    let elem = result.unwrap();
    let obj = elem.as_obj().expect("create directory must return an Obj");
    assert_eq!(obj.children.len(), 1, "new directory Obj must have exactly one child");
    assert_eq!(
        obj.children[0],
        placeholders::I_PLACEHOLDER,
        "child must be I_PLACEHOLDER, got: {:?}",
        obj.children[0]
    );
    assert_eq!(obj.key, "<input></input>");
}

#[test]
fn named_lists_are_those_of_the_application() {
    assert_eq!(I_PLACEHOLDER, placeholders::I_PLACEHOLDER);
    let ours = Element::new_obj_with_i_placeholder("key".to_owned());
    let theirs = placeholders::new_obj_with_i_placeholder("key");
    let branch = ours.as_obj().unwrap();
    let object = theirs.as_obj().unwrap();
    assert_eq!(branch.key, object.key);
    let lines: Vec<FfonElement> =
        branch.children.iter().map(|c| FfonElement::Str(c.clone())).collect();
    assert_eq!(lines, object.children);
    let plain = Element::new_obj("key".to_owned());
    let theirs = FfonElement::new_obj("key");
    assert_eq!(plain.as_obj().unwrap().key, theirs.as_obj().unwrap().key);
    assert!(plain.as_obj().unwrap().children.is_empty());
    assert!(theirs.as_obj().unwrap().children.is_empty());
    assert!(plain.as_str().is_none());
    assert!(Element::Str("x".to_owned()).as_obj().is_none());
}

#[test]
fn test_handle_command_toggle_properties() {
    let mut p = make_provider();
    assert!(!p.show_properties);
    p.handle_command("show/hide properties", "", 0).unwrap();
    assert!(p.show_properties);
    p.handle_command("show/hide properties", "", 0).unwrap();
    assert!(!p.show_properties);
}

#[test]
fn test_handle_command_toggle_hidden_files() {
    let mut p = make_provider();
    assert!(!p.show_hidden, "hidden files are off by default");
    p.handle_command("show/hide hidden files", "", 0).unwrap();
    assert!(p.show_hidden);
    p.handle_command("show/hide hidden files", "", 0).unwrap();
    assert!(!p.show_hidden);
}

#[test]
fn test_handle_command_sort_chrono() {
    let mut p = make_provider();
    p.handle_command("sort chronologically", "", 0).unwrap();
    assert_eq!(p.sort_mode, SortMode::Chrono);
    p.handle_command("sort alphanumerically", "", 0).unwrap();
    assert_eq!(p.sort_mode, SortMode::Alpha);
}

#[test]
fn test_handle_command_unknown() {
    let mut p = make_provider();
    let result = p.handle_command("nonexistent command", "", 0).unwrap();
    assert!(result.is_none());
}

#[test]
fn an_unknown_command_leaves_the_settings() {
    let mut p = make_provider();
    p.handle_command("show/hide hidden files", "", 0).unwrap();
    p.handle_command("sort chronologically", "", 0).unwrap();
    p.handle_command("Sort alphanumerically", "", 0).unwrap();
    assert!(p.show_hidden && !p.show_properties);
    assert_eq!(p.sort_mode, SortMode::Chrono);
    assert_eq!(p.current_path(), "/tmp/folder");
}

#[test]
fn the_order_is_a_setting() {
    let mut p = make_provider();
    p.on_setting_change("sortOrder", "chronologically");
    assert_eq!(p.sort_mode, SortMode::Chrono);
    p.on_setting_change("other", "alphanumerically");
    assert_eq!(p.sort_mode, SortMode::Chrono);
    p.on_setting_change("sortOrder", "anything else");
    assert_eq!(p.sort_mode, SortMode::Alpha);
    assert_eq!(SortMode::default(), SortMode::Alpha);
}

#[test]
fn init_goes_to_the_root_in_the_order_that_is_set() {
    let mut p = make_provider();
    p.show_hidden = true;
    p.init(Some("chronologically"));
    assert_eq!(p.current_path(), "/");
    assert_eq!(p.sort_mode, SortMode::Chrono);
    assert!(p.show_hidden);
    p.set_current_path("/tmp");
    p.init(None);
    assert_eq!(p.current_path(), "/");
    assert_eq!(p.sort_mode, SortMode::Chrono);
}

#[test]
fn a_poll_tells_the_error_once() {
    let mut p = fb();
    p.error = Some("broken".to_owned());
    let first = p.poll(System::Slashes);
    assert!(first.at_root && first.structural_edit_here && !first.dashboard_here);
    assert_eq!(first.error.as_deref(), Some("broken"));
    p.push_path("tmp");
    let second = p.poll(System::Slashes);
    assert!(!second.at_root);
    assert!(second.error.is_none());
    p.error = Some("again".to_owned());
    assert_eq!(p.take_error().as_deref(), Some("again"));
    assert!(p.take_error().is_none());
}

#[test]
fn with_drives_a_backslash_is_the_root_too() {
    let mut p = fb();
    p.set_current_path("\\");
    assert!(p.poll(System::Drives).at_root);
    assert!(!p.poll(System::Slashes).at_root);
    p.set_current_path("C:\\");
    assert!(!p.poll(System::Drives).at_root);
}

#[test]
fn the_descriptor_names_the_file_browser() {
    let d = fb().describe("Files".to_owned(), "0.1.0".to_owned());
    assert_eq!(d.name, "filebrowser");
    assert_eq!(d.display_name, "Files");
    assert_eq!(d.version.as_deref(), Some("0.1.0"));
    assert!(d.supports_structural_edit && d.path_is_filesystem);
}

#[test]
fn names_to_copy_lose_their_separators() {
    let item = make_provider().copy_item("src/", "dst\\");
    assert_eq!((item.src.as_str(), item.dst.as_str()), ("src", "dst"));
}

#[test]
fn natively_the_host_desktop_touches_nothing() {
    assert_eq!(
        HostDesktop.trash("/tmp/x.txt"),
        Err("no OS trash outside the sandbox".to_owned())
    );
    assert_eq!(
        HostDesktop.restore("/tmp/x.txt"),
        Err("no OS trash outside the sandbox".to_owned())
    );
    assert!(HostDesktop.applications().is_empty());
    assert_eq!(
        HostDesktop.open_with("editor", "/tmp/x.txt"),
        Err("no applications outside the sandbox".to_owned())
    );
    let mut p = FilebrowserProvider::new();
    let trashed = p.desktop.trash("/tmp/x.txt").is_ok();
    let nothing = filebrowser::timeline::FsSideEffect::Nothing;
    assert!(!p.delete_item("x.txt", &nothing, trashed), "a delete the trash refused is not done");
    assert!(p.take_timeline_entries().is_empty());
}
