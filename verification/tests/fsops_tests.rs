use bestls::fsops::{
    classify, describe, format_modified, format_permissions, get_files, get_owner_group,
    is_hidden, map_data, ownership_from, DirItem, EntryMeta, FileType, PlatformMeta,
};

fn plain_file(len: u64) -> EntryMeta {
    EntryMeta {
        is_file: true,
        is_dir: false,
        is_symlink: false,
        len,
        modified: Some(1431648000),
        platform: PlatformMeta::Other,
    }
}

fn item(name: &str, meta: Option<EntryMeta>) -> DirItem {
    DirItem { name: name.as_bytes().to_vec(), meta }
}

#[test]
fn kinds_are_tried_in_order() {
    assert_eq!(classify(true, false, false), FileType::File);
    assert_eq!(classify(false, true, false), FileType::Directory);
    assert_eq!(classify(false, false, true), FileType::Symlink);
    assert_eq!(classify(false, false, false), FileType::File);
    assert_eq!(classify(true, true, true), FileType::File);
    assert_eq!(classify(false, true, true), FileType::Directory);
}

#[test]
fn kinds_have_their_names() {
    assert_eq!(FileType::File.to_string(), "File");
    assert_eq!(FileType::Directory.to_string(), "Directory");
    assert_eq!(FileType::Symlink.to_string(), "Symlink");
}

#[test]
fn permissions_follow_the_mode_bits() {
    let posix = |mode: u32| PlatformMeta::Posix { mode, uid: 0, gid: 0 };
    assert_eq!(format_permissions(&posix(0o755)), "rwxr-xr-x");
    assert_eq!(format_permissions(&posix(0o644)), "rw-r--r--");
    assert_eq!(format_permissions(&posix(0o000)), "---------");
    assert_eq!(format_permissions(&posix(0o777)), "rwxrwxrwx");
    assert_eq!(format_permissions(&posix(0o100644)), "rw-r--r--");
    assert_eq!(format_permissions(&posix(0o4755)), "rwxr-xr-x");
    assert_eq!(format_permissions(&posix(0o400)), "r--------");
    assert_eq!(format_permissions(&posix(0o200)), "-w-------");
    assert_eq!(format_permissions(&posix(0o100)), "--x------");
    assert_eq!(format_permissions(&posix(0o040)), "---r-----");
    assert_eq!(format_permissions(&posix(0o020)), "----w----");
    assert_eq!(format_permissions(&posix(0o010)), "-----x---");
    assert_eq!(format_permissions(&posix(0o004)), "------r--");
    assert_eq!(format_permissions(&posix(0o002)), "-------w-");
    assert_eq!(format_permissions(&posix(0o001)), "--------x");
}

#[test]
fn permissions_elsewhere_are_the_fallbacks() {
    assert_eq!(format_permissions(&PlatformMeta::Windows { readonly: true }), "r--");
    assert_eq!(format_permissions(&PlatformMeta::Windows { readonly: false }), "rw-");
    assert_eq!(format_permissions(&PlatformMeta::Other), "N/A");
}

#[test]
fn modification_times_are_shown_in_utc() {
    assert_eq!(format_modified(Some(1431648000)), "Fri 15 May 2015 00:00:00");
    assert_eq!(format_modified(Some(0)), "Thu 01 Jan 1970 00:00:00");
    assert_eq!(format_modified(Some(-1)), "Wed 31 Dec 1969 23:59:59");
    assert_eq!(format_modified(Some(951827696)), "Tue 29 Feb 2000 12:34:56");
}

#[test]
fn missing_or_unshowable_times_give_no_text() {
    assert_eq!(format_modified(None), "");
    assert_eq!(format_modified(Some(i64::MAX)), "");
    assert_eq!(format_modified(Some(i64::MIN)), "");
}

#[test]
fn owner_and_group_fall_back_to_the_ids() {
    let posix = PlatformMeta::Posix { mode: 0o644, uid: 1234, gid: 0 };
    let (owner, group) = ownership_from(&posix, None, None);
    assert_eq!(owner, "1234");
    assert_eq!(group, "0");
    let (owner, group) =
        ownership_from(&posix, Some("alice".to_string()), Some("staff".to_string()));
    assert_eq!(owner, "alice");
    assert_eq!(group, "staff");
    let (owner, group) = ownership_from(&posix, None, Some("staff".to_string()));
    assert_eq!(owner, "1234");
    assert_eq!(group, "staff");
    let top = PlatformMeta::Posix { mode: 0, uid: u32::MAX, gid: u32::MAX };
    assert_eq!(ownership_from(&top, None, None).0, "4294967295");
}

#[test]
fn owner_and_group_elsewhere_are_the_fallbacks() {
    let windows = PlatformMeta::Windows { readonly: false };
    let (owner, group) = ownership_from(&windows, Some("alice".to_string()), None);
    assert_eq!(owner, "Owner");
    assert_eq!(group, "Group");
    let (owner, group) = get_owner_group(&PlatformMeta::Other);
    assert_eq!(owner, "N/A");
    assert_eq!(group, "N/A");
}

#[test]
fn looked_up_owner_is_a_name_or_the_id() {
    let posix = PlatformMeta::Posix { mode: 0o644, uid: 0, gid: 0 };
    let (owner, group) = get_owner_group(&posix);
    assert!(!owner.is_empty());
    assert!(!group.is_empty());
}

#[test]
fn describe_fills_every_field() {
    let meta = EntryMeta {
        is_file: false,
        is_dir: true,
        is_symlink: false,
        len: 4096,
        modified: Some(1431648000),
        platform: PlatformMeta::Posix { mode: 0o40755, uid: 1000, gid: 100 },
    };
    let entry = describe("src".to_string(), &meta, Some("alice".to_string()), None);
    assert_eq!(entry.name, "src");
    assert_eq!(entry.e_type, FileType::Directory);
    assert_eq!(entry.len_bytes, 4096);
    assert_eq!(entry.human_size, "4.0 KB");
    assert_eq!(entry.modified, "Fri 15 May 2015 00:00:00");
    assert_eq!(entry.permissions, "rwxr-xr-x");
    assert_eq!(entry.owner, "alice");
    assert_eq!(entry.group, "100");
    let copy = entry.duplicate();
    assert_eq!(copy.name, entry.name);
    assert_eq!(copy.len_bytes, entry.len_bytes);
    assert_eq!(copy.group, entry.group);
}

#[test]
fn hidden_names_begin_with_a_dot() {
    assert!(is_hidden(".hidden"));
    assert!(is_hidden("."));
    assert!(is_hidden(".."));
    assert!(!is_hidden("visible"));
    assert!(!is_hidden("not.hidden"));
    assert!(!is_hidden(""));
}

#[test]
fn items_without_metadata_give_no_record() {
    assert!(map_data(&item("a.txt", None)).is_none());
    let entry = map_data(&item("a.txt", Some(plain_file(10)))).unwrap();
    assert_eq!(entry.name, "a.txt");
    assert_eq!(entry.len_bytes, 10);
    assert_eq!(entry.human_size, "10 B");
    assert_eq!(entry.owner, "N/A");
}

#[test]
fn hidden_items_are_left_out_unless_asked_for() {
    let items = vec![
        item(".hidden", Some(plain_file(1))),
        item("visible", Some(plain_file(2))),
    ];
    let shown = get_files(&items, false);
    assert_eq!(shown.len(), 1);
    assert_eq!(shown[0].name, "visible");
    let all = get_files(&items, true);
    assert_eq!(all.len(), 2);
    assert_eq!(all[0].name, ".hidden");
    assert_eq!(all[1].name, "visible");
}

#[test]
fn unreadable_items_are_left_out() {
    let items = vec![
        item("a", Some(plain_file(1))),
        item("broken", None),
        item("b", Some(plain_file(2))),
    ];
    let shown = get_files(&items, true);
    assert_eq!(shown.len(), 2);
    assert_eq!(shown[0].name, "a");
    assert_eq!(shown[1].name, "b");
}

#[test]
fn empty_directories_give_no_records() {
    assert!(get_files(&Vec::new(), false).is_empty());
    assert!(get_files(&Vec::new(), true).is_empty());
}

#[test]
fn names_that_are_not_utf8_are_shown_with_replacements() {
    let items = vec![
        DirItem { name: vec![0x66, 0x6f, 0xff, 0x6f], meta: Some(plain_file(3)) },
        DirItem { name: vec![0x2e, 0xff], meta: Some(plain_file(4)) },
        DirItem { name: "caf\u{e9}".as_bytes().to_vec(), meta: Some(plain_file(5)) },
    ];
    let shown = get_files(&items, false);
    assert_eq!(shown.len(), 2);
    assert_eq!(shown[0].name, "fo\u{fffd}o");
    assert_eq!(shown[1].name, "caf\u{e9}");
    let all = get_files(&items, true);
    assert_eq!(all.len(), 3);
    assert_eq!(all[1].name, ".\u{fffd}");
}
