//! Numbers, dates, columns, paths and drives.

use filebrowser::calendar::civil_from_days;
use filebrowser::desktop::{stat, LinkDetails};
use filebrowser::drives::{drive_to_enter, is_drive_root, list_drives, step_up, StepUp};
use filebrowser::entry::{is_navigable, RawEntry, Timestamp};
use filebrowser::long_properties::{
    self, date_pattern, name_or_id, permission_string, S_IFDIR, S_IFLNK, S_IFMT, S_IRGRP, S_IROTH,
    S_IRUSR, S_IWGRP, S_IWOTH, S_IWUSR, S_IXGRP, S_IXOTH, S_IXUSR,
};
use filebrowser::path::{
    is_root_path, is_system_root, join, join_entry, parent_path, System,
};
use filebrowser::short_properties;
use filebrowser::text::{
    align_left, align_right, decimal_text, starts_with_dot, trim_end_matches, without_separators,
};
use std::path::{Path, PathBuf};

fn entry(mode: u32) -> RawEntry {
    RawEntry {
        name: "x".into(),
        mtime: Timestamp { secs: 0, nanos: 0 },
        is_dir: false,
        size: 0,
        mode,
        nlink: 1,
        uid: 0,
        gid: 0,
        owner: None,
        group: None,
        date: "Jan  1  1970".into(),
    }
}

#[test]
fn test_format_properties_permission_string() {
    let dir = long_properties::format_properties(&entry(libc::S_IFDIR as u32 | 0o755));
    assert!(dir.starts_with("drwxr-xr-x "), "got: {dir}");

    let file = long_properties::format_properties(&entry(libc::S_IFREG as u32 | 0o644));
    assert!(file.starts_with("-rw-r--r-- "), "got: {file}");

    let link = long_properties::format_properties(&entry(libc::S_IFLNK as u32 | 0o777));
    assert!(link.starts_with("lrwxrwxrwx "), "got: {link}");
}

#[test]
fn the_mode_bits_are_the_system_s() {
    assert_eq!(S_IFMT, libc::S_IFMT as u32);
    assert_eq!(S_IFDIR, libc::S_IFDIR as u32);
    assert_eq!(S_IFLNK, libc::S_IFLNK as u32);
    assert_eq!(S_IRUSR, libc::S_IRUSR as u32);
    assert_eq!(S_IWUSR, libc::S_IWUSR as u32);
    assert_eq!(S_IXUSR, libc::S_IXUSR as u32);
    assert_eq!(S_IRGRP, libc::S_IRGRP as u32);
    assert_eq!(S_IWGRP, libc::S_IWGRP as u32);
    assert_eq!(S_IXGRP, libc::S_IXGRP as u32);
    assert_eq!(S_IROTH, libc::S_IROTH as u32);
    assert_eq!(S_IWOTH, libc::S_IWOTH as u32);
    assert_eq!(S_IXOTH, libc::S_IXOTH as u32);
}

#[test]
fn each_permission_bit_has_its_letter() {
    assert_eq!(permission_string(0), "----------");
    assert_eq!(permission_string(0o100777), "-rwxrwxrwx");
    assert_eq!(permission_string(0o040421), "dr---w---x");
    assert_eq!(permission_string(0o060124), "---x-w-r--");
}

#[test]
fn long_properties_stand_in_columns() {
    let e = RawEntry {
        size: 123456,
        nlink: 12,
        uid: 1000,
        gid: 5,
        owner: Some("somebody-long".to_owned()),
        ..entry(0o100644)
    };
    assert_eq!(
        long_properties::format_properties(&e),
        format!(
            "{} {:2} {:<8} {:<8} {:5} {} ",
            "-rw-r--r--", 12, "somebody-long", "5", 123456, "Jan  1  1970"
        )
    );
    assert_eq!(
        long_properties::format_properties(&entry(0o040755)),
        "drwxr-xr-x  1 0        0            0 Jan  1  1970 "
    );
}

#[test]
fn short_properties_tell_size_and_time() {
    let at = |secs: i64| RawEntry {
        mtime: Timestamp { secs, nanos: 0 },
        size: 4096,
        ..entry(0)
    };
    assert_eq!(short_properties::format_properties(&at(0)), "     4096 1970-01-01 00:00 ");
    assert_eq!(
        short_properties::format_properties(&at(951_782_399)),
        "     4096 2000-02-28 23:59 "
    );
    assert_eq!(
        short_properties::format_properties(&at(951_782_400)),
        "     4096 2000-02-29 00:00 "
    );
    assert_eq!(short_properties::format_properties(&at(-5)), "     4096 1970-01-01 00:00 ");
    let large = RawEntry { size: 12_345_678_901, ..entry(0) };
    assert_eq!(short_properties::format_properties(&large), "12345678901 1970-01-01 00:00 ");
    // A year of five digits is not cut.
    assert_eq!(
        short_properties::format_properties(&at(253_402_300_800)),
        "     4096 10000-01-01 00:00 "
    );
}

#[test]
fn days_become_dates() {
    assert_eq!(civil_from_days(0), (1970, 1, 1));
    assert_eq!(civil_from_days(-1), (1969, 12, 31));
    assert_eq!(civil_from_days(11_016), (2000, 2, 29));
    assert_eq!(civil_from_days(11_017), (2000, 3, 1));
    assert_eq!(civil_from_days(-719_468), (0, 3, 1));
    assert_eq!(civil_from_days(-719_469), (0, 2, 29));
    assert_eq!(civil_from_days(20_772), (2026, 11, 15));
}

#[test]
fn recent_times_are_written_with_the_time_of_day() {
    let mtime = Timestamp { secs: 1_000_000, nanos: 0 };
    assert_eq!(date_pattern(1_000_000 + 15_551_999, &mtime), "%b %e %H:%M");
    assert_eq!(date_pattern(1_000_000 + 15_552_000, &mtime), "%b %e  %Y");
    assert_eq!(date_pattern(0, &mtime), "%b %e %H:%M");
    let before = Timestamp { secs: -100, nanos: 0 };
    assert_eq!(date_pattern(15_551_999, &before), "%b %e %H:%M");
    assert_eq!(date_pattern(15_552_000, &before), "%b %e  %Y");
}

#[test]
fn moments_before_the_epoch_have_negative_seconds() {
    assert_eq!(Timestamp::after_epoch(5, 7), Timestamp { secs: 5, nanos: 7 });
    assert_eq!(Timestamp::before_epoch(5, 0), Timestamp { secs: -5, nanos: 0 });
    let just_before = Timestamp::before_epoch(0, 1);
    assert_eq!(just_before, Timestamp { secs: -1, nanos: 999_999_999 });
    assert!(Timestamp::epoch().is_after(&just_before));
    assert!(just_before.is_after(&Timestamp::before_epoch(0, 2)));
    assert_eq!(just_before.epoch_seconds(), 0);
}

#[test]
fn numbers_and_columns() {
    for n in [0, 7, 10, 99, 1234567890, u64::MAX] {
        assert_eq!(decimal_text(n), n.to_string());
    }
    assert_eq!(align_right("42", 5, " "), "   42");
    assert_eq!(align_right("42", 4, "0"), "0042");
    assert_eq!(align_right("12345", 3, " "), "12345");
    assert_eq!(align_left("ab", 4), "ab  ");
    assert_eq!(align_left("abcde", 4), "abcde");
    assert_eq!(name_or_id(&Some("root".to_owned()), 7), "root");
    assert_eq!(name_or_id(&None, 7), "7");
}

#[test]
fn trailing_separators_go() {
    for s in ["", "a", "a/", "a//", "a\\", "a\\/", "a/\\", "/", "\\\\//", "\u{e9}/", "a/b\\"] {
        assert_eq!(trim_end_matches(s, '/'), s.trim_end_matches('/'));
        assert_eq!(
            without_separators(s),
            s.trim_end_matches('/').trim_end_matches('\\')
        );
    }
    assert!(starts_with_dot(".git"));
    assert!(!starts_with_dot("a.git"));
    assert!(!starts_with_dot(""));
}

#[test]
fn paths_are_those_of_the_system() {
    let paths = [
        "", "/", "//", ".", "..", "./", "/.", "/./", "a", "a/", "a/b", "a//b", "/a", "/a/", "/a/.",
        "/a/./", "/a/b", "/a/b/", "/a//b//", "/a/./b", "/a/../b", "/a/..", "./a", "../a", "./.",
        ".a", "a/.", "a/./.", "/.a", "/tmp/folder", "/\u{e9}/x", "a/b/./.", "/...", ".//a", "./..",
    ];
    for path in paths {
        assert_eq!(is_root_path(path), Path::new(path) == Path::new("/"), "{path}");
        let expected = Path::new(path).parent().map(|p| p.to_str().unwrap().to_owned());
        assert_eq!(parent_path(path), expected, "parent of {path}");
        let mut popped = PathBuf::from(path);
        popped.pop();
        let ours = parent_path(path).unwrap_or(path.to_owned());
        assert_eq!(ours, popped.to_str().unwrap(), "{path}");
        for name in ["", "x", "x/y", "/abs", ".", "..", ".hidden"] {
            let expected = Path::new(path).join(name);
            assert_eq!(join(path, name), expected.to_str().unwrap(), "{path} + {name}");
        }
    }
}

#[test]
fn each_system_joins_its_own_way() {
    let slashes = |dir, name| join_entry(System::Slashes, dir, name).unwrap();
    assert_eq!(slashes("/a", "x"), "/a/x");
    assert_eq!(slashes("C:\\d", "x"), "C:\\d/x");
    assert_eq!(slashes("/a", "/x"), "/x");
    let drives = |dir, name| join_entry(System::Drives, dir, name);
    for (dir, joined) in [
        ("C:\\d", "C:\\d\\x"),
        ("C:\\", "C:\\x"),
        ("C:/d/", "C:/d/x"),
        ("C:", "C:x"),
        ("1:", "1:\\x"),
        ("", "x"),
        ("\\\\?", "\\\\?\\x"),
    ] {
        assert_eq!(drives(dir, "x").as_deref(), Some(joined), "{dir}");
    }
    assert_eq!(drives("\\\\?\\C:\\d", "x"), None);
    for name in ["\\x", "/x", "D:", "D:x"] {
        assert_eq!(drives("C:\\d", name), None, "{name}");
    }
}

#[test]
fn each_system_has_its_own_root() {
    for path in ["/", "//", "/.", "/./"] {
        assert!(is_system_root(System::Slashes, path), "{path}");
        assert!(is_system_root(System::Drives, path), "{path}");
    }
    for path in ["\\", "\\\\", "\\.", "\\.\\", "/\\", "\\\\."] {
        assert!(!is_system_root(System::Slashes, path), "{path}");
        assert!(is_system_root(System::Drives, path), "{path}");
    }
    for path in ["", ".", "a", "/a", "\\a", "/..", "C:\\", "./", "\\\\.\\", "\\\\.\\a"] {
        assert!(!is_system_root(System::Slashes, path), "{path}");
        assert!(!is_system_root(System::Drives, path), "{path}");
    }
}

#[test]
fn a_link_to_a_folder_can_be_entered() {
    assert!(is_navigable(false, true, None));
    assert!(!is_navigable(false, false, Some(true)));
    assert!(is_navigable(true, false, Some(true)));
    assert!(!is_navigable(true, false, Some(false)));
    assert!(!is_navigable(true, false, None));
}

#[test]
fn details_fall_back_to_numbers_and_utc() {
    assert!(stat(None).is_none());
    let details = LinkDetails {
        mode: 0o100644,
        links: 2,
        uid: 1000,
        gid: 100,
        user: Some("ada".to_owned()),
        group: None,
        utc_offset: Some(-18_000),
    };
    let s = stat(Some(details)).unwrap();
    assert_eq!((s.mode, s.links), (Some(0o100644), Some(2)));
    assert_eq!(s.owner.as_deref(), Some("ada"));
    assert_eq!(s.group.as_deref(), Some("100"));
    assert_eq!(s.utc_offset, -18_000);
    let unknown = LinkDetails {
        mode: 0,
        links: 1,
        uid: 7,
        gid: 8,
        user: None,
        group: Some("staff".to_owned()),
        utc_offset: None,
    };
    let s = stat(Some(unknown)).unwrap();
    assert_eq!(s.owner.as_deref(), Some("7"));
    assert_eq!(s.group.as_deref(), Some("staff"));
    assert_eq!(s.utc_offset, 0);
}

#[test]
fn drives_are_listed_by_their_bits() {
    let drives = list_drives(0b1100);
    let keys: Vec<&str> = drives.iter().map(|d| d.as_obj().unwrap().key.as_str()).collect();
    assert_eq!(keys, vec!["<input>C:\\</input>", "<input>D:\\</input>"]);
    assert!(list_drives(0).is_empty());
    assert_eq!(list_drives(u32::MAX).len(), 26);
    assert!(list_drives(1 << 26).is_empty());
}

#[test]
fn drive_roots_lead_up_to_the_drives() {
    for path in ["C:\\", "z:/", "1:\\"] {
        assert!(is_drive_root(path));
        assert_eq!(step_up(path, false), StepUp::Drives);
    }
    for path in ["", "/", "C:", "C:\\x", "\u{e9}:\\", "C;\\", "C:x", "::::"] {
        assert!(!is_drive_root(path));
        assert_eq!(step_up(path, false), StepUp::Parent);
        assert_eq!(step_up(path, true), StepUp::Stay);
    }
    assert_eq!(drive_to_enter(true, "C:\\").as_deref(), Some("C:\\"));
    assert_eq!(drive_to_enter(false, "C:\\"), None);
}
