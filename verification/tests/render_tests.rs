use bestls::color::{ColorValue, TableColors, Theme};
use bestls::fsops::{describe, EntryMeta, FileEntry, PlatformMeta};
use serde::ser::SerializeStruct;
use bestls::render::{
    effective_format, render, render_compact, render_json, render_table, select_emitter, Emitter,
    OutputFormat,
};

fn entry(name: &str, len: u64, dir: bool) -> FileEntry {
    let meta = EntryMeta {
        is_file: !dir,
        is_dir: dir,
        is_symlink: false,
        len,
        modified: Some(1431648000),
        platform: PlatformMeta::Posix { mode: 0o644, uid: 1000, gid: 100 },
    };
    describe(name.to_string(), &meta, Some("alice".to_string()), Some("staff".to_string()))
}

const KEYS: [&str; 8] =
    ["name", "e_type", "len_bytes", "human_size", "modified", "permissions", "owner", "group"];

#[test]
fn older_switches_win_over_the_format() {
    assert_eq!(effective_format(true, true, OutputFormat::Table), OutputFormat::JsonPretty);
    assert_eq!(effective_format(true, false, OutputFormat::Json), OutputFormat::JsonPretty);
    assert_eq!(effective_format(false, true, OutputFormat::Table), OutputFormat::Json);
    assert_eq!(effective_format(false, true, OutputFormat::JsonPretty), OutputFormat::Json);
    assert_eq!(effective_format(false, false, OutputFormat::Table), OutputFormat::Table);
    assert_eq!(effective_format(false, false, OutputFormat::JsonPretty), OutputFormat::JsonPretty);
}

#[test]
fn compact_counts_for_the_table_format_only() {
    assert_eq!(select_emitter(OutputFormat::Table, true), Emitter::Compact);
    assert_eq!(select_emitter(OutputFormat::Table, false), Emitter::Table);
    assert_eq!(select_emitter(OutputFormat::Json, true), Emitter::Json);
    assert_eq!(select_emitter(OutputFormat::Json, false), Emitter::Json);
    assert_eq!(select_emitter(OutputFormat::JsonPretty, true), Emitter::JsonPretty);
}

#[test]
fn compact_output_is_one_name_per_line() {
    let entries = vec![entry("a.txt", 10, false), entry("b.txt", 20, false), entry("src", 0, true)];
    assert_eq!(render_compact(&entries), "a.txt\nb.txt\nsrc");
    assert_eq!(render_compact(&entries[..1].to_vec()), "a.txt");
    assert_eq!(render_compact(&Vec::new()), "");
}

#[test]
fn compact_json_has_no_white_space() {
    let entries = vec![entry("a.txt", 10, false), entry("src", 4096, true)];
    let expected = concat_all(&[
        "[{\"name\":\"a.txt\",\"e_type\":\"File\",\"len_bytes\":10,\"human_size\":\"10 B\",",
        "\"modified\":\"Fri 15 May 2015 00:00:00\",\"permissions\":\"rw-r--r--\",",
        "\"owner\":\"alice\",\"group\":\"staff\"},",
        "{\"name\":\"src\",\"e_type\":\"Directory\",\"len_bytes\":4096,\"human_size\":\"4.0 KB\",",
        "\"modified\":\"Fri 15 May 2015 00:00:00\",\"permissions\":\"rw-r--r--\",",
        "\"owner\":\"alice\",\"group\":\"staff\"}]",
    ]);
    assert_eq!(render_json(&entries, false), expected);
}

fn concat_all(parts: &[&str]) -> String {
    let mut out = String::new();
    for part in parts {
        out.push_str(part);
    }
    out
}

#[test]
fn pretty_json_is_indented_by_two_spaces() {
    let entries = vec![entry("a.txt", 10, false)];
    let expected = concat_all(&[
        "[\n",
        "  {\n",
        "    \"name\": \"a.txt\",\n",
        "    \"e_type\": \"File\",\n",
        "    \"len_bytes\": 10,\n",
        "    \"human_size\": \"10 B\",\n",
        "    \"modified\": \"Fri 15 May 2015 00:00:00\",\n",
        "    \"permissions\": \"rw-r--r--\",\n",
        "    \"owner\": \"alice\",\n",
        "    \"group\": \"staff\"\n",
        "  }\n",
        "]",
    ]);
    assert_eq!(render_json(&entries, true), expected);
}

#[test]
fn pretty_json_is_laid_out_as_serde_json_lays_it_out() {
    let entries = vec![entry("a \"quoted\"\n name", 10, false), entry("b\\c", 20, true)];
    let compact = render_json(&entries, false);
    let pretty = render_json(&entries, true);
    let value: serde_json::Value = serde_json::from_str(&compact).unwrap();
    let again: serde_json::Value = serde_json::from_str(&pretty).unwrap();
    assert_eq!(value, again);
    let lines: Vec<&str> = pretty.lines().collect();
    assert_eq!(lines.len(), 2 + 2 * 10);
    assert_eq!(lines[0], "[");
    assert_eq!(lines[1], "  {");
    assert_eq!(lines[10], "  },");
    assert_eq!(lines[20], "  }");
    assert_eq!(lines[21], "]");
}

#[test]
fn json_output_parses_back_to_the_documented_keys() {
    let entries = vec![
        entry("a.txt", 10, false),
        entry("tab\there", 0, false),
        entry("quote\"back\\slash", u64::MAX, true),
        entry("\u{1}control\u{1f}", 5, false),
        entry("caf\u{e9} \u{1f600}", 7, false),
    ];
    for pretty in [false, true] {
        let text = render_json(&entries, pretty);
        let value: serde_json::Value = serde_json::from_str(&text).unwrap();
        let array = value.as_array().unwrap();
        assert_eq!(array.len(), entries.len());
        for (object, entry) in array.iter().zip(entries.iter()) {
            let object = object.as_object().unwrap();
            assert_eq!(object.len(), KEYS.len());
            for key in KEYS {
                assert!(object.contains_key(key));
            }
            assert_eq!(object["name"].as_str(), Some(entry.name.as_str()));
            assert_eq!(object["e_type"].as_str(), Some(entry.e_type.to_string().as_str()));
            assert_eq!(object["len_bytes"].as_u64(), Some(entry.len_bytes));
            assert_eq!(object["human_size"].as_str(), Some(entry.human_size.as_str()));
            assert_eq!(object["modified"].as_str(), Some(entry.modified.as_str()));
            assert_eq!(object["permissions"].as_str(), Some(entry.permissions.as_str()));
            assert_eq!(object["owner"].as_str(), Some(entry.owner.as_str()));
            assert_eq!(object["group"].as_str(), Some(entry.group.as_str()));
        }
    }
}

#[test]
fn json_keys_stand_in_the_documented_order() {
    let text = render_json(&vec![entry("a", 1, false)], false);
    let mut from = 0;
    for key in KEYS {
        let at = text[from..].find(&format!("\"{}\":", key)).unwrap();
        from += at + 1;
    }
}

#[test]
fn json_strings_are_escaped() {
    let text = render_json(&vec![entry("a\"b\\c\nd", 1, false)], false);
    assert!(text.starts_with("[{\"name\":\"a\\\"b\\\\c\\nd\","));
}

#[test]
fn empty_listings_are_well_formed() {
    let none: Vec<FileEntry> = Vec::new();
    assert_eq!(render_json(&none, false), "[]");
    assert_eq!(render_json(&none, true), "[]");
    assert_eq!(render_compact(&none), "");
    let table = render_table(&none, false, &TableColors::default());
    let lines: Vec<&str> = table.lines().collect();
    assert_eq!(lines.len(), 3);
    assert!(lines[0].starts_with('\u{256d}'));
    let header: Vec<&str> = lines[1].split('\u{2502}').map(|cell| cell.trim()).collect();
    assert_eq!(
        header,
        vec!["", "Name", "Type", "Size", "Modified", "Permissions", "Owner", "Group", ""]
    );
    let mut builder = tabled::builder::Builder::default();
    builder.push_record(["Name", "Type", "Size", "Modified", "Permissions", "Owner", "Group"]);
    let mut alone = builder.build();
    alone.with(tabled::settings::Style::rounded());
    assert_eq!(table, alone.to_string());
}

#[test]
fn table_has_the_seven_columns_in_order() {
    let table = render_table(&vec![entry("a.txt", 10, false)], false, &TableColors::default());
    let lines: Vec<&str> = table.lines().collect();
    assert_eq!(lines.len(), 5);
    let header: Vec<&str> = lines[1].split('\u{2502}').map(|cell| cell.trim()).collect();
    assert_eq!(
        header,
        vec!["", "Name", "Type", "Size", "Modified", "Permissions", "Owner", "Group", ""]
    );
    let row: Vec<&str> = lines[3].split('\u{2502}').map(|cell| cell.trim()).collect();
    assert_eq!(
        row,
        vec!["", "a.txt", "File", "10 B", "Fri 15 May 2015 00:00:00", "rw-r--r--", "alice", "staff", ""]
    );
}

#[test]
fn table_is_what_tabled_draws() {
    let entries = vec![entry("a.txt", 10, false), entry("src", 4096, true)];
    let mut builder = tabled::builder::Builder::default();
    builder.push_record(["Name", "Type", "Size", "Modified", "Permissions", "Owner", "Group"]);
    for e in &entries {
        builder.push_record([
            e.name.clone(),
            e.e_type.to_string(),
            e.human_size.clone(),
            e.modified.clone(),
            e.permissions.clone(),
            e.owner.clone(),
            e.group.clone(),
        ]);
    }
    let mut plain = builder.build();
    plain.with(tabled::settings::Style::rounded());
    assert_eq!(render_table(&entries, false, &TableColors::default()), plain.to_string());
    let mut colored = plain.clone();
    colored.modify(tabled::settings::object::Columns::first(), tabled::settings::Color::FG_BRIGHT_CYAN);
    colored.modify(tabled::settings::object::Columns::one(2), tabled::settings::Color::FG_BRIGHT_MAGENTA);
    colored.modify(tabled::settings::object::Columns::one(3), tabled::settings::Color::FG_BRIGHT_YELLOW);
    colored.modify(tabled::settings::object::Rows::first(), tabled::settings::Color::FG_BRIGHT_GREEN);
    assert_eq!(render_table(&entries, true, &TableColors::default()), colored.to_string());
}

#[test]
fn table_colors_come_from_the_theme() {
    let entries = vec![entry("a.txt", 10, false)];
    let colors = TableColors {
        name: ColorValue::Red,
        size: ColorValue::Green,
        date: ColorValue::Blue,
        header: ColorValue::White,
    };
    let colored = render_table(&entries, true, &colors);
    assert!(colored.contains("\u{1b}[31ma.txt\u{1b}[39m"));
    assert!(colored.contains("\u{1b}[32m10 B\u{1b}[39m"));
    assert!(colored.contains("\u{1b}[34mFri 15 May 2015 00:00:00\u{1b}[39m"));
    assert!(colored.contains("\u{1b}[37mName\u{1b}[39m"));
    assert!(colored.contains("\u{1b}[37mSize\u{1b}[39m"));
    assert!(!colored.contains("\u{1b}[31mName"));
    let plain = render_table(&entries, false, &colors);
    assert!(!plain.contains('\u{1b}'));
}

#[test]
fn render_selects_the_emitter() {
    let entries = vec![entry("a.txt", 10, false), entry("b.txt", 20, false)];
    let theme = Theme::default();
    assert_eq!(render(&entries, OutputFormat::Table, true, true, &theme), "a.txt\nb.txt");
    assert_eq!(
        render(&entries, OutputFormat::Table, false, false, &theme),
        render_table(&entries, false, &theme.table)
    );
    assert_eq!(
        render(&entries, OutputFormat::Table, false, true, &theme),
        render_table(&entries, true, &theme.table)
    );
    assert_eq!(
        render(&entries, OutputFormat::Json, true, true, &theme),
        render_json(&entries, false)
    );
    assert_eq!(
        render(&entries, OutputFormat::JsonPretty, false, false, &theme),
        render_json(&entries, true)
    );
}

#[test]
fn rendering_twice_gives_the_same_text() {
    let entries = vec![entry("a.txt", 10, false), entry("src", 4096, true)];
    let theme = Theme::default();
    for format in [OutputFormat::Table, OutputFormat::Json, OutputFormat::JsonPretty] {
        for compact in [false, true] {
            for use_color in [false, true] {
                let first = render(&entries, format, compact, use_color, &theme);
                let second = render(&entries, format, compact, use_color, &Theme::default());
                assert_eq!(first, second);
            }
        }
    }
}

/// A record as `serde` sees a struct with the eight fields in their order.
struct Row<'a>(&'a FileEntry);

impl serde::Serialize for Row<'_> {
    fn serialize<S: serde::Serializer>(&self, serializer: S) -> Result<S::Ok, S::Error> {
        let mut row = serializer.serialize_struct("FileEntry", 8)?;
        row.serialize_field("name", &self.0.name)?;
        row.serialize_field("e_type", &self.0.e_type.to_string())?;
        row.serialize_field("len_bytes", &self.0.len_bytes)?;
        row.serialize_field("human_size", &self.0.human_size)?;
        row.serialize_field("modified", &self.0.modified)?;
        row.serialize_field("permissions", &self.0.permissions)?;
        row.serialize_field("owner", &self.0.owner)?;
        row.serialize_field("group", &self.0.group)?;
        row.end()
    }
}

#[test]
fn json_is_what_serde_json_writes_for_the_records() {
    let entries = vec![
        entry("a.txt", 10, false),
        entry("quote\"back\\slash/slash", u64::MAX, true),
        entry("\u{0}\u{1}\u{8}\t\n\u{b}\u{c}\r\u{1f} \u{7f}\u{80}", 0, false),
        entry("caf\u{e9} \u{1f600} \u{2028}\u{2029}", 1024, false),
        entry("", 5, true),
    ];
    for count in 0..=entries.len() {
        let some: Vec<FileEntry> = entries[..count].to_vec();
        let rows: Vec<Row> = some.iter().map(Row).collect();
        assert_eq!(render_json(&some, false), serde_json::to_string(&rows).unwrap());
        assert_eq!(render_json(&some, true), serde_json::to_string_pretty(&rows).unwrap());
    }
}
