//! Entry records and how they are derived from what a directory listing
//! gives: a name as raw bytes and the metadata of the entry as plain values.

use std::fmt::Write;
use vstd::prelude::*;
use vstd::utf8::{decode_utf8, valid_utf8};
use crate::size::{human_size, human_size_text};
use crate::text::{decimal_digits, decimal_text};

verus! {

/// The kind of a directory entry.
#[derive(Debug, Clone, Copy, PartialEq, Eq, Structural)]
pub enum FileType {
    File,
    Directory,
    Symlink,
}

/// The name of a kind, as shown in the table and in JSON.
pub open spec fn file_type_name(kind: FileType) -> Seq<char> {
    match kind {
        FileType::File => "File"@,
        FileType::Directory => "Directory"@,
        FileType::Symlink => "Symlink"@,
    }
}

impl FileType {
    /// The name of the kind: `File`, `Directory` or `Symlink`.
    pub fn to_string(&self) -> (out: String)
        ensures
            out@ == file_type_name(*self),
    {
        match self {
            FileType::File => "File".to_owned(),
            FileType::Directory => "Directory".to_owned(),
            FileType::Symlink => "Symlink".to_owned(),
        }
    }
}

/// One record of a listing.
#[derive(Debug, Clone)]
pub struct FileEntry {
    pub name: String,
    pub e_type: FileType,
    pub len_bytes: u64,
    pub human_size: String,
    pub modified: String,
    pub permissions: String,
    pub owner: String,
    pub group: String,
}

/// What a record holds.
pub struct EntryView {
    pub name: Seq<char>,
    pub e_type: FileType,
    pub len_bytes: u64,
    pub human_size: Seq<char>,
    pub modified: Seq<char>,
    pub permissions: Seq<char>,
    pub owner: Seq<char>,
    pub group: Seq<char>,
}

impl View for FileEntry {
    type V = EntryView;

    open spec fn view(&self) -> EntryView {
        EntryView {
            name: self.name@,
            e_type: self.e_type,
            len_bytes: self.len_bytes,
            human_size: self.human_size@,
            modified: self.modified@,
            permissions: self.permissions@,
            owner: self.owner@,
            group: self.group@,
        }
    }
}

/// What a list of records holds.
pub open spec fn entry_views(entries: Seq<FileEntry>) -> Seq<EntryView> {
    entries.map_values(|e: FileEntry| e@)
}

impl FileEntry {
    /// A copy of the record.
    pub fn duplicate(&self) -> (out: FileEntry)
        ensures
            out@ == self@,
    {
        FileEntry {
            name: self.name.clone(),
            e_type: self.e_type,
            len_bytes: self.len_bytes,
            human_size: self.human_size.clone(),
            modified: self.modified.clone(),
            permissions: self.permissions.clone(),
            owner: self.owner.clone(),
            group: self.group.clone(),
        }
    }
}

/// What the platform tells of permissions and ownership.
#[derive(Debug, Clone, Copy)]
pub enum PlatformMeta {
    /// A POSIX platform: the mode bits and the numeric owner and group.
    Posix { mode: u32, uid: u32, gid: u32 },
    /// A Windows-class platform: only whether the entry is read-only.
    Windows { readonly: bool },
    /// Any other platform: nothing.
    Other,
}

/// The metadata of one entry, as plain values.
#[derive(Debug, Clone, Copy)]
pub struct EntryMeta {
    pub is_file: bool,
    pub is_dir: bool,
    pub is_symlink: bool,
    /// The length that the file system reports for the entry itself.
    pub len: u64,
    /// The modification time in seconds since 1970-01-01 00:00:00 UTC, where
    /// the platform gives one.
    pub modified: Option<i64>,
    pub platform: PlatformMeta,
}

/// One item of a directory listing: the raw bytes of its name, and its
/// metadata where it could be read.
#[derive(Debug, Clone)]
pub struct DirItem {
    pub name: Vec<u8>,
    pub meta: Option<EntryMeta>,
}

/// The text that stands for a name given as bytes: the name itself where the
/// bytes are UTF-8, else the name with a replacement character for what is
/// not (`String::from_utf8_lossy`).
pub uninterp spec fn lossy_text(bytes: Seq<u8>) -> Seq<char>;

/// Turns the bytes of a name into text with `String::from_utf8_lossy`: bytes
/// that are valid UTF-8 give the text that they encode; of other bytes only
/// that the same bytes give the same text is stated.
#[verifier::external_body]
pub(crate) fn lossy_name(bytes: &[u8]) -> (out: String)
    ensures
        out@ == lossy_text(bytes@),
        valid_utf8(bytes@) ==> out@ == decode_utf8(bytes@),
{
    String::from_utf8_lossy(bytes).into_owned()
}

/// A point in time in UTC, given in seconds since 1970-01-01 00:00:00, as
/// text in a `strftime` pattern; `None` where the time is out of the range
/// of the calendar or the pattern cannot be used.
pub uninterp spec fn utc_text(seconds: int, pattern: Seq<char>) -> Option<Seq<char>>;

/// Formats a time with `chrono::DateTime::from_timestamp` and
/// `DateTime::format`. The text depends on the seconds and the pattern alone;
/// what it is for a given time is not stated here.
#[verifier::external_body]
fn format_utc(seconds: i64, pattern: &str) -> (out: Option<String>)
    ensures
        match out {
            Some(text) => utc_text(seconds as int, pattern@) == Some(text@),
            None => utc_text(seconds as int, pattern@) is None,
        },
{
    let moment = chrono::DateTime::from_timestamp(seconds, 0)?;
    let mut text = String::new();
    write!(text, "{}", moment.format(pattern)).ok()?;
    Some(text)
}

/// Looks up the name of a user in the user database
/// (`nix::unistd::User::from_uid`). Nothing is stated of the outcome, which
/// depends on the machine.
#[verifier::external_body]
fn lookup_user(uid: u32) -> Option<String> {
    let found = nix::unistd::User::from_uid(nix::unistd::Uid::from_raw(uid));
    found.ok().flatten().map(|user| user.name)
}

/// Looks up the name of a group in the group database
/// (`nix::unistd::Group::from_gid`). Nothing is stated of the outcome, which
/// depends on the machine.
#[verifier::external_body]
fn lookup_group(gid: u32) -> Option<String> {
    let found = nix::unistd::Group::from_gid(nix::unistd::Gid::from_raw(gid));
    found.ok().flatten().map(|group| group.name)
}

/// The kind of an entry: the flags are tried in the order regular file,
/// directory, symlink; anything else counts as a file.
pub open spec fn kind_of(is_file: bool, is_dir: bool, is_symlink: bool) -> FileType {
    if is_file {
        FileType::File
    } else if is_dir {
        FileType::Directory
    } else if is_symlink {
        FileType::Symlink
    } else {
        FileType::File
    }
}

/// The kind of an entry from its three file type flags.
pub fn classify(is_file: bool, is_dir: bool, is_symlink: bool) -> (out: FileType)
    ensures
        out == kind_of(is_file, is_dir, is_symlink),
{
    if is_file {
        FileType::File
    } else if is_dir {
        FileType::Directory
    } else if is_symlink {
        FileType::Symlink
    } else {
        FileType::File
    }
}

/// `letter` where the mode has the bit `bit`, else a dash.
pub open spec fn mode_flag(mode: u32, bit: u32, letter: char) -> char {
    if mode & bit != 0 {
        letter
    } else {
        '-'
    }
}

/// The nine characters of a mode: read, write and execute for the owner, the
/// group and the others.
pub open spec fn mode_text(mode: u32) -> Seq<char> {
    seq![
        mode_flag(mode, 0o400, 'r'),
        mode_flag(mode, 0o200, 'w'),
        mode_flag(mode, 0o100, 'x'),
        mode_flag(mode, 0o040, 'r'),
        mode_flag(mode, 0o020, 'w'),
        mode_flag(mode, 0o010, 'x'),
        mode_flag(mode, 0o004, 'r'),
        mode_flag(mode, 0o002, 'w'),
        mode_flag(mode, 0o001, 'x'),
    ]
}

/// The permissions of an entry as text.
pub open spec fn permissions_text(platform: PlatformMeta) -> Seq<char> {
    match platform {
        PlatformMeta::Posix { mode, .. } => mode_text(mode),
        PlatformMeta::Windows { readonly } => if readonly {
            seq!['r', '-', '-']
        } else {
            seq!['r', 'w', '-']
        },
        PlatformMeta::Other => seq!['N', '/', 'A'],
    }
}

fn flag_char(mode: u32, bit: u32, letter: char) -> (out: char)
    ensures
        out == mode_flag(mode, bit, letter),
{
    if mode & bit != 0 {
        letter
    } else {
        '-'
    }
}

/// The permissions of an entry as text: on a POSIX platform nine characters
/// from the mode bits, on a Windows-class platform `r--` or `rw-`, and `N/A`
/// elsewhere.
pub fn format_permissions(platform: &PlatformMeta) -> (out: String)
    ensures
        out@ == permissions_text(*platform),
{
    let mut out = String::new();
    match platform {
        PlatformMeta::Posix { mode, .. } => {
            out.push(flag_char(*mode, 0o400, 'r'));
            out.push(flag_char(*mode, 0o200, 'w'));
            out.push(flag_char(*mode, 0o100, 'x'));
            out.push(flag_char(*mode, 0o040, 'r'));
            out.push(flag_char(*mode, 0o020, 'w'));
            out.push(flag_char(*mode, 0o010, 'x'));
            out.push(flag_char(*mode, 0o004, 'r'));
            out.push(flag_char(*mode, 0o002, 'w'));
            out.push(flag_char(*mode, 0o001, 'x'));
        },
        PlatformMeta::Windows { readonly } => {
            out.push('r');
            out.push(if *readonly {
                '-'
            } else {
                'w'
            });
            out.push('-');
        },
        PlatformMeta::Other => {
            out.push('N');
            out.push('/');
            out.push('A');
        },
    }
    assert(out@ =~= permissions_text(*platform));
    out
}

/// The pattern in which modification times are shown.
pub open spec fn modified_pattern() -> Seq<char> {
    "%a %d %b %Y %H:%M:%S"@
}

/// The modification time as text; empty where there is no time or it cannot
/// be shown.
pub open spec fn modified_text(modified: Option<i64>) -> Seq<char> {
    match modified {
        Some(seconds) => match utc_text(seconds as int, modified_pattern()) {
            Some(text) => text,
            None => Seq::<char>::empty(),
        },
        None => Seq::<char>::empty(),
    }
}

/// Shows a modification time in UTC, as in `Fri 15 May 2015 00:00:00`; the
/// text is empty where the time is not available.
pub fn format_modified(modified: Option<i64>) -> (out: String)
    ensures
        out@ == modified_text(modified),
{
    match modified {
        Some(seconds) => match format_utc(seconds, "%a %d %b %Y %H:%M:%S") {
            Some(text) => text,
            None => String::new(),
        },
        None => String::new(),
    }
}

/// The owner as shown: on a POSIX platform the name that the lookup gave, or
/// the user id in decimal where it gave none.
pub open spec fn owner_text(platform: PlatformMeta, found: Option<Seq<char>>) -> Seq<char> {
    match platform {
        PlatformMeta::Posix { uid, .. } => match found {
            Some(name) => name,
            None => decimal_digits(uid as nat),
        },
        PlatformMeta::Windows { .. } => "Owner"@,
        PlatformMeta::Other => "N/A"@,
    }
}

/// The group as shown: on a POSIX platform the name that the lookup gave, or
/// the group id in decimal where it gave none.
pub open spec fn group_text(platform: PlatformMeta, found: Option<Seq<char>>) -> Seq<char> {
    match platform {
        PlatformMeta::Posix { gid, .. } => match found {
            Some(name) => name,
            None => decimal_digits(gid as nat),
        },
        PlatformMeta::Windows { .. } => "Group"@,
        PlatformMeta::Other => "N/A"@,
    }
}

/// The text of an optional string.
pub open spec fn optional_text(s: Option<String>) -> Option<Seq<char>> {
    match s {
        Some(text) => Some(text@),
        None => None,
    }
}

/// The owner and the group of an entry, given what the lookups of the two
/// ids found.
pub fn ownership_from(platform: &PlatformMeta, user: Option<String>, group: Option<String>) -> (out: (
    String,
    String,
))
    ensures
        out.0@ == owner_text(*platform, optional_text(user)),
        out.1@ == group_text(*platform, optional_text(group)),
{
    match platform {
        PlatformMeta::Posix { uid, gid, .. } => {
            let owner = match user {
                Some(name) => name,
                None => decimal_text(*uid as u64),
            };
            let group_name = match group {
                Some(name) => name,
                None => decimal_text(*gid as u64),
            };
            (owner, group_name)
        },
        PlatformMeta::Windows { .. } => ("Owner".to_owned(), "Group".to_owned()),
        PlatformMeta::Other => ("N/A".to_owned(), "N/A".to_owned()),
    }
}

/// The owner and the group of an entry. On a POSIX platform the two ids are
/// looked up in the user and group databases of the machine, so the names
/// are whatever the machine holds for them; an id without a name is shown
/// in decimal.
pub fn get_owner_group(platform: &PlatformMeta) -> (out: (String, String))
    ensures
        exists|user: Option<Seq<char>>, group: Option<Seq<char>>|
            out.0@ == owner_text(*platform, user) && out.1@ == group_text(*platform, group),
{
    let (user, group) = match platform {
        PlatformMeta::Posix { uid, gid, .. } => (lookup_user(*uid), lookup_group(*gid)),
        _ => (None, None),
    };
    let out = ownership_from(platform, user, group);
    assert(out.0@ == owner_text(*platform, optional_text(user)) && out.1@ == group_text(
        *platform,
        optional_text(group),
    ));
    out
}

/// The record of an entry with the given name and metadata, where the lookups
/// of its owner and group found `user` and `group`.
pub open spec fn entry_of(
    name: Seq<char>,
    meta: EntryMeta,
    user: Option<Seq<char>>,
    group: Option<Seq<char>>,
) -> EntryView {
    EntryView {
        name: name,
        e_type: kind_of(meta.is_file, meta.is_dir, meta.is_symlink),
        len_bytes: meta.len,
        human_size: human_size_text(meta.len as nat),
        modified: modified_text(meta.modified),
        permissions: permissions_text(meta.platform),
        owner: owner_text(meta.platform, user),
        group: group_text(meta.platform, group),
    }
}

/// `entry` is the record of an entry with the given name and metadata,
/// whatever the lookups of its owner and group found.
pub open spec fn describes(entry: EntryView, name: Seq<char>, meta: EntryMeta) -> bool {
    exists|user: Option<Seq<char>>, group: Option<Seq<char>>|
        entry == entry_of(name, meta, user, group)
}

fn assemble(name: String, meta: &EntryMeta, owner: String, group: String) -> (out: FileEntry)
    ensures
        out@ == (EntryView {
            name: name@,
            e_type: kind_of(meta.is_file, meta.is_dir, meta.is_symlink),
            len_bytes: meta.len,
            human_size: human_size_text(meta.len as nat),
            modified: modified_text(meta.modified),
            permissions: permissions_text(meta.platform),
            owner: owner@,
            group: group@,
        }),
{
    FileEntry {
        name: name,
        e_type: classify(meta.is_file, meta.is_dir, meta.is_symlink),
        len_bytes: meta.len,
        human_size: human_size(meta.len),
        modified: format_modified(meta.modified),
        permissions: format_permissions(&meta.platform),
        owner: owner,
        group: group,
    }
}

/// Builds the record of an entry from its name, its metadata, and what the
/// lookups of its owner and group found.
pub fn describe(name: String, meta: &EntryMeta, user: Option<String>, group: Option<String>) -> (out:
    FileEntry)
    ensures
        out@ == entry_of(name@, *meta, optional_text(user), optional_text(group)),
{
    let (owner, group_name) = ownership_from(&meta.platform, user, group);
    assemble(name, meta, owner, group_name)
}

/// A name is hidden when it begins with a dot.
pub open spec fn is_hidden_name(name: Seq<char>) -> bool {
    name.len() > 0 && name[0] == '.'
}

/// Tests whether a name is hidden, that is, begins with a dot.
pub fn is_hidden(name: &str) -> (out: bool)
    ensures
        out == is_hidden_name(name@),
{
    let chars = crate::text::chars_of(name);
    chars.len() > 0 && chars[0] == '.'
}

/// The name of an item as text.
pub open spec fn item_name(item: DirItem) -> Seq<char> {
    lossy_text(item.name@)
}

/// An item is listed when its metadata could be read and its name passes the
/// policy on hidden names.
pub open spec fn is_listed(item: DirItem, include_hidden: bool) -> bool {
    item.meta is Some && (include_hidden || !is_hidden_name(item_name(item)))
}

/// Builds the record of one item of a listing; there is none where the
/// metadata of the item could not be read. The name is the text of the
/// item's bytes; the owner and the group are looked up on the machine.
pub fn map_data(item: &DirItem) -> (out: Option<FileEntry>)
    ensures
        match out {
            Some(entry) => item.meta is Some && describes(
                entry@,
                item_name(*item),
                item.meta.unwrap(),
            ),
            None => item.meta is None,
        },
{
    match &item.meta {
        Some(meta) => {
            let name = lossy_name(item.name.as_slice());
            let (owner, group) = get_owner_group(&meta.platform);
            let entry = assemble(name, meta, owner, group);
            proof {
                let (user, found) = choose|user: Option<Seq<char>>, found: Option<Seq<char>>|
                    owner@ == owner_text(meta.platform, user) && group@ == group_text(
                        meta.platform,
                        found,
                    );
                assert(entry@ == entry_of(item_name(*item), *meta, user, found));
            }
            Some(entry)
        },
        None => None,
    }
}

/// `records` are the records of the listed items of `items`, in their order.
pub open spec fn lists(records: Seq<EntryView>, items: Seq<DirItem>, include_hidden: bool) -> bool {
    let listed = items.filter(|item: DirItem| is_listed(item, include_hidden));
    &&& records.len() == listed.len()
    &&& forall|i: int|
        0 <= i < records.len() ==> describes(
            #[trigger] records[i],
            item_name(listed[i]),
            listed[i].meta.unwrap(),
        )
}

/// The records of one directory: an item whose name is hidden is left out
/// unless `include_hidden` is set, and so is an item whose metadata could not
/// be read.
pub fn get_files(items: &Vec<DirItem>, include_hidden: bool) -> (out: Vec<FileEntry>)
    ensures
        lists(entry_views(out@), items@, include_hidden),
        forall|i: int|
            0 <= i < out.len() ==> include_hidden || !is_hidden_name((#[trigger] out@[i])@.name),
{
    let mut out: Vec<FileEntry> = Vec::new();
    let mut i: usize = 0;
    while i < items.len()
        invariant
            i <= items.len(),
            lists(entry_views(out@), items@.take(i as int), include_hidden),
            forall|k: int|
                0 <= k < out.len() ==> include_hidden || !is_hidden_name(
                    (#[trigger] out@[k])@.name,
                ),
        decreases items.len() - i,
    {
        let ghost keep = |item: DirItem| is_listed(item, include_hidden);
        let ghost before = entry_views(out@);
        proof {
            assert(items@.take(i + 1).drop_last() =~= items@.take(i as int));
            assert(items@.take(i + 1).last() == items@[i as int]);
            reveal(Seq::filter);
            assert(items@.take(i + 1).filter(keep) == if keep(items@[i as int]) {
                items@.take(i as int).filter(keep).push(items@[i as int])
            } else {
                items@.take(i as int).filter(keep)
            });
        }
        let item = &items[i];
        if item.meta.is_some() {
            let name = lossy_name(item.name.as_slice());
            if include_hidden || !is_hidden(name.as_str()) {
                match map_data(item) {
                    Some(entry) => {
                        out.push(entry);
                        assert(entry_views(out@) =~= before.push(entry@));
                    },
                    None => {},
                }
            }
        }
        i += 1;
    }
    assert(items@.take(items@.len() as int) =~= items@);
    out
}

/// The size shown of a record is the size of the record in bytes, scaled:
/// every record that describes an entry shows the very count that it holds.
pub proof fn lemma_record_size_is_consistent(entry: EntryView, name: Seq<char>, meta: EntryMeta)
    requires
        describes(entry, name, meta),
    ensures
        entry.human_size == human_size_text(entry.len_bytes as nat),
        entry.name == name,
{
}

/// The records of a listing are as many as the listed items, each shows the
/// size that it holds, and none has a hidden name unless hidden names are
/// kept.
pub proof fn lemma_listed_records(records: Seq<EntryView>, items: Seq<DirItem>, include_hidden: bool)
    requires
        lists(records, items, include_hidden),
    ensures
        records.len() <= items.len(),
        forall|i: int|
            0 <= i < records.len() ==> (#[trigger] records[i]).human_size == human_size_text(
                records[i].len_bytes as nat,
            ),
        forall|i: int|
            0 <= i < records.len() ==> include_hidden || !is_hidden_name(
                (#[trigger] records[i]).name,
            ),
{
    let keep = |item: DirItem| is_listed(item, include_hidden);
    let listed = items.filter(keep);
    items.lemma_filter_len(keep);
    assert forall|i: int| 0 <= i < records.len() implies include_hidden || !is_hidden_name(
        (#[trigger] records[i]).name,
    ) by {
        items.lemma_filter_pred(keep, i);
        assert(describes(records[i], item_name(listed[i]), listed[i].meta.unwrap()));
    }
    assert forall|i: int| 0 <= i < records.len() implies (#[trigger] records[i]).human_size
        == human_size_text(records[i].len_bytes as nat) by {
        assert(describes(records[i], item_name(listed[i]), listed[i].meta.unwrap()));
    }
}

} // verus!
