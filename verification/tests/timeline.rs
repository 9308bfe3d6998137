//! Undoable deletes and their records.

use filebrowser::provider::FilebrowserProvider;
use filebrowser::timeline::{
    decode_side_effect, deleted_path, encode_side_effect, has_places, FsSideEffect, ProviderOp,
};
use base64::Engine;
use sicompass_sdk::ffon::FfonElement;
use sicompass_sdk::timeline::{FsSideEffect as Snapshot, TrashedTree};

fn fb() -> FilebrowserProvider<()> {
    FilebrowserProvider::with_desktop(())
}

fn file(path: &str, content: &[u8]) -> FsSideEffect {
    FsSideEffect::TrashedFile {
        original_path: path.to_owned(),
        content_snapshot: content.to_vec(),
    }
}

fn tree() -> TrashedTree {
    TrashedTree::Dir(vec![
        ("inner.txt".to_owned(), TrashedTree::File(b"nested".to_vec())),
        (
            "sub".to_owned(),
            TrashedTree::Dir(vec![(
                "deep.txt".to_owned(),
                TrashedTree::File(b"deeper".to_vec()),
            )]),
        ),
    ])
}

fn op(command: &str, payload: Vec<u8>) -> ProviderOp {
    ProviderOp { command: command.to_owned(), payload, label: "x".to_owned() }
}

/// Deletes with this side effect and hands out the one record.
fn deleted(p: &mut FilebrowserProvider<()>, label: &str, effect: &FsSideEffect) -> ProviderOp {
    let name = p.name_to_delete(label);
    assert!(p.delete_item(&name, effect, true));
    let mut entries = p.take_timeline_entries();
    assert_eq!(entries.len(), 1);
    entries.pop().unwrap()
}

#[test]
fn delete_item_records_an_undo_with_the_file_snapshot() {
    let mut p = fb();
    p.set_current_path("/tmp");
    let entry = deleted(&mut p, "doomed.txt", &file("/tmp/doomed.txt", b"important content"));
    assert!(entry.label.contains("doomed.txt"), "{}", entry.label);
    assert_eq!(entry.label, "delete doomed.txt");
    assert_eq!(entry.command, "delete");
    match decode_side_effect(&entry).expect("the payload decodes") {
        FsSideEffect::TrashedFile { content_snapshot, original_path } => {
            assert_eq!(content_snapshot, b"important content");
            assert_eq!(original_path, "/tmp/doomed.txt");
        }
        other => panic!("expected TrashedFile, got {other:?}"),
    }
    assert!(p.take_timeline_entries().is_empty());
}

#[test]
fn undo_restores_a_deleted_file_from_its_snapshot() {
    let mut p = fb();
    let entry = deleted(&mut p, "doomed.txt", &file("/tmp/doomed.txt", b"restore me"));
    match p.undo(&entry) {
        Some(FsSideEffect::TrashedFile { original_path, content_snapshot }) => {
            assert_eq!(original_path, "/tmp/doomed.txt");
            assert_eq!(content_snapshot, b"restore me");
        }
        other => panic!("{other:?}"),
    }
}

#[test]
fn undo_restores_a_deleted_directory_tree() {
    let mut p = fb();
    let effect =
        FsSideEffect::TrashedDir { original_path: "/tmp/a".to_owned(), content_tree: tree() };
    let entry = deleted(&mut p, "a", &effect);
    match p.undo(&entry) {
        Some(FsSideEffect::TrashedDir { original_path, content_tree }) => {
            assert_eq!(original_path, "/tmp/a");
            assert_eq!(content_tree, tree());
        }
        other => panic!("{other:?}"),
    }
}

#[test]
fn undo_of_an_oversized_delete_restores_it_from_the_trash() {
    let mut p = fb();
    let path = "/tmp/huge.bin".to_owned();
    let effect = FsSideEffect::RenameOnly { from: path.clone(), to: path.clone() };
    let entry = deleted(&mut p, "huge.bin", &effect);
    assert!(entry.payload.len() < 4096, "and its undo payload stays small");
    match p.undo(&entry) {
        Some(FsSideEffect::RenameOnly { from, to }) => {
            assert_eq!(from, path);
            assert_eq!(to, path);
        }
        other => panic!("an oversized delete keeps no snapshot: {other:?}"),
    }
}

#[test]
fn redo_moves_the_file_to_the_trash_again() {
    let mut p = fb();
    p.set_current_path("/tmp");
    let entry = deleted(&mut p, "doomed.txt", &file("/tmp/doomed.txt", b"x"));
    p.set_current_path("/");
    assert_eq!(p.redo(&entry).as_deref(), Some("/tmp/doomed.txt"));
}

#[test]
fn an_entry_that_is_not_a_delete_is_ignored() {
    let p = fb();
    let payload = sicompass_pdk::encode_one(&FfonElement::Str("x".into()));
    let other = op("something-else", payload);
    assert!(p.undo(&other).is_none());
    assert!(p.redo(&other).is_none());
}

#[test]
fn test_delete_file() {
    let mut p = fb();
    assert_eq!(p.name_to_delete("<input>del.txt</input>"), "del.txt");
    let entry = deleted(&mut p, "<input>del.txt</input>", &file("/tmp/del.txt", b"x"));
    assert_eq!(entry.label, "delete del.txt");
}

#[test]
fn test_delete_file_with_properties_prefix() {
    let label = "-rw-r--r-- 1 user group 1 May 31 12:00 <input>del.txt</input>";
    assert_eq!(fb().name_to_delete(label), "del.txt");
}

#[test]
fn test_delete_directory_recursive() {
    assert_eq!(fb().name_to_delete("<input>sub</input>"), "sub");
    assert_eq!(fb().name_to_delete("<input>sub/</input>"), "sub");
}

#[test]
fn test_delete_nonexistent_returns_false() {
    let mut p = fb();
    let name = p.name_to_delete("<input>nonexistent_xyz</input>");
    assert_eq!(name, "nonexistent_xyz");
    // The trash refuses what is not there.
    assert!(!p.delete_item(&name, &FsSideEffect::Nothing, false));
    assert!(p.take_timeline_entries().is_empty());
}

#[test]
fn records_come_out_in_order_and_once() {
    let mut p = fb();
    assert!(p.delete_item("a", &FsSideEffect::Nothing, true));
    assert!(!p.delete_item("b", &FsSideEffect::Nothing, false));
    assert!(p.delete_item("c", &FsSideEffect::Nothing, true));
    let labels: Vec<String> =
        p.take_timeline_entries().into_iter().map(|entry| entry.label).collect();
    assert_eq!(labels, vec!["delete a", "delete c"]);
    assert!(p.take_timeline_entries().is_empty());
}

#[test]
fn the_payload_is_the_snapshot_in_base64_as_a_line() {
    let snapshot = Snapshot::TrashedFile {
        original_path: "/tmp/a".into(),
        content_snapshot: vec![0, 159, 255],
    };
    let bytes = sicompass_sdk::fs_snapshot::encode(&snapshot);
    let text = base64::engine::general_purpose::STANDARD.encode(&bytes);
    let expected = sicompass_pdk::encode_one(&FfonElement::Str(text.clone()));
    let payload = encode_side_effect(&file("/tmp/a", &[0, 159, 255]));
    assert_eq!(payload, expected);
    assert_eq!(&payload[..4], &[0, 0, 0, 0]);
    assert_eq!(payload[4] as usize + 256 * payload[5] as usize, text.len());
    assert_eq!(&payload[8..], text.as_bytes());
    assert_eq!(text.len(), (bytes.len() + 2) / 3 * 4);
}

#[test]
fn a_payload_is_as_long_as_what_it_keeps() {
    let path = "/tmp/\u{e9}";
    let moved = FsSideEffect::RenameOnly { from: path.to_owned(), to: "/b".to_owned() };
    let dir = FsSideEffect::TrashedDir { original_path: path.to_owned(), content_tree: tree() };
    // The tree has two folders and two files, three of them with a name.
    let names = "inner.txt".len() + "sub".len() + "deep.txt".len();
    let tree_size = 4 * 9 + 3 * 8 + names + "nested".len() + "deeper".len();
    for (effect, size) in [
        (FsSideEffect::Nothing, 1),
        (file(path, b"12345"), 17 + path.len() + 5),
        (moved, 17 + path.len() + 2),
        (dir, 9 + path.len() + tree_size),
    ] {
        assert_eq!(encode_side_effect(&effect).len(), 8 + (size + 2) / 3 * 4);
    }
}

#[test]
fn every_kind_of_delete_comes_back() {
    let effects = [
        FsSideEffect::Nothing,
        file("/tmp/\u{e9}.md", b""),
        FsSideEffect::TrashedDir {
            original_path: "/d".to_owned(),
            content_tree: TrashedTree::Dir(vec![]),
        },
        FsSideEffect::TrashedDir { original_path: "/d".to_owned(), content_tree: tree() },
        FsSideEffect::RenameOnly { from: "/a".to_owned(), to: "/b".to_owned() },
    ];
    for effect in effects {
        let payload = encode_side_effect(&effect);
        assert!(has_places(&payload));
        let back = decode_side_effect(&op("delete", payload)).unwrap();
        assert_eq!(format!("{back:?}"), format!("{effect:?}"));
    }
}

#[test]
fn a_malformed_payload_is_no_delete() {
    let line = |text: &str| sicompass_pdk::encode_one(&FfonElement::Str(text.into()));
    let b64 = |bytes: &[u8]| base64::engine::general_purpose::STANDARD.encode(bytes);
    for payload in [
        vec![],
        vec![1, 2, 3],
        line("not base64!"),
        line(&b64(&[9])),
        line(&b64(&[0, 0])),
        sicompass_pdk::encode_one(&FfonElement::new_obj("AA==")),
    ] {
        assert!(has_places(&payload));
        assert!(decode_side_effect(&op("delete", payload)).is_none());
    }
    let nothing = line(&b64(&[0]));
    assert!(matches!(
        decode_side_effect(&op("delete", nothing)),
        Some(FsSideEffect::Nothing)
    ));
}

#[test]
fn a_length_that_leads_far_past_the_end_is_no_harm_here() {
    let blob = [0, 0, 0, 0, 255, 255, 255, 255, 1];
    assert!(has_places(&blob));
    assert!(decode_side_effect(&op("delete", blob.to_vec())).is_none());
}

#[test]
fn the_path_of_a_delete() {
    assert_eq!(deleted_path(&file("/a", b"")), Some("/a"));
    let dir = FsSideEffect::TrashedDir { original_path: "/d".to_owned(), content_tree: tree() };
    assert_eq!(deleted_path(&dir), Some("/d"));
    let moved = FsSideEffect::RenameOnly { from: "/from".to_owned(), to: "/to".to_owned() };
    assert_eq!(deleted_path(&moved), Some("/from"));
    assert_eq!(deleted_path(&FsSideEffect::Nothing), None);
    let mut p = fb();
    let entry = deleted(&mut p, "x", &FsSideEffect::Nothing);
    assert_eq!(p.redo(&entry), None);
    assert!(matches!(p.undo(&entry), Some(FsSideEffect::Nothing)));
}
