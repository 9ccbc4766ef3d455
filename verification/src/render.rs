//! The renderer: one name per line, a table, or JSON, compact or indented.

use vstd::prelude::*;
use vstd::string::StringExecFns;
use tabled::builder::Builder;
use tabled::settings::object::{Columns, Rows};
use tabled::settings::{Color, Style};
use crate::color::{ansi_suffix, color_prefix, color_suffix, TableColors, Theme, ThemeView};
use crate::fsops::{entry_views, file_type_name, EntryView, FileEntry};
use crate::text::{decimal_digits, decimal_text, text_views};

verus! {

/// The format in which a listing is written.
#[derive(Debug, Clone, Copy, PartialEq, Eq, Structural)]
pub enum OutputFormat {
    Table,
    Json,
    JsonPretty,
}

/// The four ways of writing a listing.
#[derive(Debug, Clone, Copy, PartialEq, Eq, Structural)]
pub enum Emitter {
    /// One name per line.
    Compact,
    /// A table with a header row.
    Table,
    /// JSON without white space.
    Json,
    /// JSON, indented.
    JsonPretty,
}

/// The format that a request asks for, where it may use the older switches
/// for JSON beside the format: the switch for indented JSON wins over the
/// switch for JSON, and that one over the format.
pub open spec fn resolved_format(json_pretty: bool, json: bool, format: OutputFormat) -> OutputFormat {
    if json_pretty {
        OutputFormat::JsonPretty
    } else if json {
        OutputFormat::Json
    } else {
        format
    }
}

/// Resolves the format of a request from the two older switches and the
/// format selector.
pub fn effective_format(json_pretty: bool, json: bool, format: OutputFormat) -> (out: OutputFormat)
    ensures
        out == resolved_format(json_pretty, json, format),
{
    if json_pretty {
        OutputFormat::JsonPretty
    } else if json {
        OutputFormat::Json
    } else {
        format
    }
}

/// The way of writing that a format and the compact switch select. The
/// switch counts for the table format only.
pub open spec fn emitter_of(format: OutputFormat, compact: bool) -> Emitter {
    match format {
        OutputFormat::Table => if compact {
            Emitter::Compact
        } else {
            Emitter::Table
        },
        OutputFormat::Json => Emitter::Json,
        OutputFormat::JsonPretty => Emitter::JsonPretty,
    }
}

/// Selects the way of writing a listing.
pub fn select_emitter(format: OutputFormat, compact: bool) -> (out: Emitter)
    ensures
        out == emitter_of(format, compact),
{
    match format {
        OutputFormat::Table => if compact {
            Emitter::Compact
        } else {
            Emitter::Table
        },
        OutputFormat::Json => Emitter::Json,
        OutputFormat::JsonPretty => Emitter::JsonPretty,
    }
}

/// The names of the records, one per line, with a line break between two
/// names.
pub open spec fn names_text(entries: Seq<EntryView>) -> Seq<char>
    decreases entries.len(),
{
    if entries.len() == 0 {
        Seq::<char>::empty()
    } else if entries.len() == 1 {
        entries.last().name
    } else {
        names_text(entries.drop_last()) + seq!['\n'] + entries.last().name
    }
}

/// Writes the names of the records, one per line.
pub fn render_compact(entries: &Vec<FileEntry>) -> (out: String)
    ensures
        out@ == names_text(entry_views(entries@)),
{
    let ghost all = entry_views(entries@);
    let mut out = String::new();
    let mut i: usize = 0;
    assert(all.take(0) =~= Seq::<EntryView>::empty());
    while i < entries.len()
        invariant
            i <= entries.len(),
            all == entry_views(entries@),
            out@ == names_text(all.take(i as int)),
        decreases entries.len() - i,
    {
        proof {
            assert(all.take(i + 1).drop_last() =~= all.take(i as int));
            assert(all.take(i + 1).last() == entries@[i as int]@);
            if i == 0 {
                assert(out@ + all.take(1).last().name =~= all.take(1).last().name);
            }
        }
        if i > 0 {
            out.push('\n');
        }
        out.append(entries[i].name.as_str());
        i += 1;
    }
    assert(all.take(all.len() as int) =~= all);
    out
}

/// A text as a JSON string, in quotes and with what JSON cannot hold as it is
/// written as an escape (`serde_json::to_string`).
pub uninterp spec fn json_string(s: Seq<char>) -> Seq<char>;

/// Writes a text as a JSON string with `serde_json::to_string`. The result
/// depends on the text alone; what it is for a given text is not stated here.
#[verifier::external_body]
fn json_quote(s: &str) -> (out: String)
    ensures
        out@ == json_string(s@),
{
    serde_json::to_string(s).unwrap_or_default()
}

/// One member of a JSON object: the key in quotes, a colon, the value, and a
/// comma unless the member is the last. Indented, the member stands on a line
/// of its own, four spaces in, with a space after the colon.
#[verifier::opaque]
pub open spec fn member_text(key: Seq<char>, value: Seq<char>, pretty: bool, last: bool) -> Seq<
    char,
> {
    let indent = if pretty {
        "    "@
    } else {
        Seq::<char>::empty()
    };
    let colon = if pretty {
        ": "@
    } else {
        ":"@
    };
    let end = if last {
        if pretty {
            "\n"@
        } else {
            Seq::<char>::empty()
        }
    } else if pretty {
        ",\n"@
    } else {
        ","@
    };
    indent + "\""@ + key + "\""@ + colon + value + end
}

/// One record as a JSON object with the keys `name`, `e_type`, `len_bytes`,
/// `human_size`, `modified`, `permissions`, `owner` and `group`, in this
/// order. The size in bytes is a number; every other value is a string.
#[verifier::opaque]
pub open spec fn object_text(entry: EntryView, pretty: bool) -> Seq<char> {
    let open = if pretty {
        "  {\n"@
    } else {
        "{"@
    };
    let close = if pretty {
        "  }"@
    } else {
        "}"@
    };
    open + member_text("name"@, json_string(entry.name), pretty, false) + member_text(
        "e_type"@,
        json_string(file_type_name(entry.e_type)),
        pretty,
        false,
    ) + member_text("len_bytes"@, decimal_digits(entry.len_bytes as nat), pretty, false)
        + member_text("human_size"@, json_string(entry.human_size), pretty, false) + member_text(
        "modified"@,
        json_string(entry.modified),
        pretty,
        false,
    ) + member_text("permissions"@, json_string(entry.permissions), pretty, false) + member_text(
        "owner"@,
        json_string(entry.owner),
        pretty,
        false,
    ) + member_text("group"@, json_string(entry.group), pretty, true) + close
}

/// The text between two objects of an array.
pub open spec fn object_separator(pretty: bool) -> Seq<char> {
    if pretty {
        ",\n"@
    } else {
        ","@
    }
}

/// The objects of the records, with a separator between two objects.
pub open spec fn objects_text(entries: Seq<EntryView>, pretty: bool) -> Seq<char>
    decreases entries.len(),
{
    if entries.len() == 0 {
        Seq::<char>::empty()
    } else if entries.len() == 1 {
        object_text(entries.last(), pretty)
    } else {
        objects_text(entries.drop_last(), pretty) + object_separator(pretty) + object_text(
            entries.last(),
            pretty,
        )
    }
}

/// The records as a JSON array of objects; `[]` where there is no record.
pub open spec fn json_text(entries: Seq<EntryView>, pretty: bool) -> Seq<char> {
    if entries.len() == 0 {
        "[]"@
    } else if pretty {
        "[\n"@ + objects_text(entries, pretty) + "\n]"@
    } else {
        "["@ + objects_text(entries, pretty) + "]"@
    }
}

proof fn lemma_concat_assoc(a: Seq<char>, b: Seq<char>, c: Seq<char>)
    ensures
        (a + b) + c == a + (b + c),
{
    assert((a + b) + c =~= a + (b + c));
}

fn push_member(out: &mut String, key: &str, value: &str, pretty: bool, last: bool)
    ensures
        final(out)@ == old(out)@ + member_text(key@, value@, pretty, last),
{
    reveal(member_text);
    if pretty {
        out.append("    ");
    }
    out.append("\"");
    out.append(key);
    out.append("\"");
    if pretty {
        out.append(": ");
    } else {
        out.append(":");
    }
    out.append(value);
    if last {
        if pretty {
            out.append("\n");
        }
    } else if pretty {
        out.append(",\n");
    } else {
        out.append(",");
    }
    assert(out@ =~= old(out)@ + member_text(key@, value@, pretty, last));
}

fn push_object(out: &mut String, entry: &FileEntry, pretty: bool)
    ensures
        final(out)@ == old(out)@ + object_text(entry@, pretty),
{
    let ghost start = out@;
    let ghost mut written: Seq<char>;
    if pretty {
        out.append("  {\n");
        proof {
            written = "  {\n"@;
        }
    } else {
        out.append("{");
        proof {
            written = "{"@;
        }
    }
    let name = json_quote(entry.name.as_str());
    push_member(out, "name", name.as_str(), pretty, false);
    proof {
        lemma_concat_assoc(start, written, member_text("name"@, json_string(entry@.name), pretty, false));
        written = written + member_text("name"@, json_string(entry@.name), pretty, false);
    }
    let kind = json_quote(entry.e_type.to_string().as_str());
    push_member(out, "e_type", kind.as_str(), pretty, false);
    proof {
        lemma_concat_assoc(start, written, member_text(
            "e_type"@,
            json_string(file_type_name(entry@.e_type)),
            pretty,
            false,
        ));
        written = written + member_text(
            "e_type"@,
            json_string(file_type_name(entry@.e_type)),
            pretty,
            false,
        );
    }
    let len = decimal_text(entry.len_bytes);
    push_member(out, "len_bytes", len.as_str(), pretty, false);
    proof {
        lemma_concat_assoc(start, written, member_text(
            "len_bytes"@,
            decimal_digits(entry@.len_bytes as nat),
            pretty,
            false,
        ));
        written = written + member_text(
            "len_bytes"@,
            decimal_digits(entry@.len_bytes as nat),
            pretty,
            false,
        );
    }
    let human = json_quote(entry.human_size.as_str());
    push_member(out, "human_size", human.as_str(), pretty, false);
    proof {
        lemma_concat_assoc(start, written, member_text(
            "human_size"@,
            json_string(entry@.human_size),
            pretty,
            false,
        ));
        written = written + member_text(
            "human_size"@,
            json_string(entry@.human_size),
            pretty,
            false,
        );
    }
    let modified = json_quote(entry.modified.as_str());
    push_member(out, "modified", modified.as_str(), pretty, false);
    proof {
        lemma_concat_assoc(start, written, member_text("modified"@, json_string(entry@.modified), pretty, false));
        written = written + member_text("modified"@, json_string(entry@.modified), pretty, false);
    }
    let permissions = json_quote(entry.permissions.as_str());
    push_member(out, "permissions", permissions.as_str(), pretty, false);
    proof {
        lemma_concat_assoc(start, written, member_text(
            "permissions"@,
            json_string(entry@.permissions),
            pretty,
            false,
        ));
        written = written + member_text(
            "permissions"@,
            json_string(entry@.permissions),
            pretty,
            false,
        );
    }
    let owner = json_quote(entry.owner.as_str());
    push_member(out, "owner", owner.as_str(), pretty, false);
    proof {
        lemma_concat_assoc(start, written, member_text("owner"@, json_string(entry@.owner), pretty, false));
        written = written + member_text("owner"@, json_string(entry@.owner), pretty, false);
    }
    let group = json_quote(entry.group.as_str());
    push_member(out, "group", group.as_str(), pretty, true);
    proof {
        lemma_concat_assoc(start, written, member_text("group"@, json_string(entry@.group), pretty, true));
        written = written + member_text("group"@, json_string(entry@.group), pretty, true);
    }
    if pretty {
        out.append("  }");
        proof {
            lemma_concat_assoc(start, written, "  }"@);
        }
    } else {
        out.append("}");
        proof {
            lemma_concat_assoc(start, written, "}"@);
        }
    }
    reveal(object_text);
}

/// Writes the records as a JSON array of objects, without white space or,
/// where `pretty` is set, indented by two spaces a level.
pub fn render_json(entries: &Vec<FileEntry>, pretty: bool) -> (out: String)
    ensures
        out@ == json_text(entry_views(entries@), pretty),
{
    let ghost all = entry_views(entries@);
    if entries.len() == 0 {
        return "[]".to_owned();
    }
    let mut out = String::new();
    if pretty {
        out.append("[\n");
    } else {
        out.append("[");
    }
    let ghost open = out@;
    let mut i: usize = 0;
    assert(all.take(0) =~= Seq::<EntryView>::empty());
    assert(out@ =~= open + objects_text(all.take(0), pretty));
    while i < entries.len()
        invariant
            i <= entries.len(),
            all == entry_views(entries@),
            out@ == open + objects_text(all.take(i as int), pretty),
        decreases entries.len() - i,
    {
        let ghost before = objects_text(all.take(i as int), pretty);
        proof {
            assert(all.take(i + 1).drop_last() =~= all.take(i as int));
            assert(all.take(i + 1).last() == entries@[i as int]@);
        }
        if i > 0 {
            if pretty {
                out.append(",\n");
            } else {
                out.append(",");
            }
        }
        push_object(&mut out, &entries[i], pretty);
        proof {
            let object = object_text(entries@[i as int]@, pretty);
            if i == 0 {
                assert(before =~= Seq::<char>::empty());
                assert(open + before =~= open);
            } else {
                lemma_concat_assoc(open, before, object_separator(pretty));
                lemma_concat_assoc(open, before + object_separator(pretty), object);
            }
        }
        i += 1;
    }
    assert(all.take(all.len() as int) =~= all);
    if pretty {
        out.append("\n]");
    } else {
        out.append("]");
    }
    out
}

/// The color of a row or a column of the table: its position, and the text
/// that is written before and after each of its cells.
#[derive(Debug, Clone)]
pub struct Paint {
    pub index: usize,
    pub prefix: String,
    pub suffix: String,
}

/// What a paint holds.
pub open spec fn paint_view(paint: Paint) -> (int, Seq<char>, Seq<char>) {
    (paint.index as int, paint.prefix@, paint.suffix@)
}

/// What a list of paints holds.
pub open spec fn paint_views(paints: Seq<Paint>) -> Seq<(int, Seq<char>, Seq<char>)> {
    paints.map_values(|p: Paint| paint_view(p))
}

/// The texts of the cells of a list of rows.
pub open spec fn row_views(rows: Seq<Vec<String>>) -> Seq<Seq<Seq<char>>> {
    rows.map_values(|r: Vec<String>| text_views(r@))
}

/// A table as text: the rows in a frame with rounded corners, the first row
/// set off as the header, the columns of `column_paints` colored first and
/// then the rows of `row_paints` (`tabled`).
pub uninterp spec fn table_text(
    rows: Seq<Seq<Seq<char>>>,
    column_paints: Seq<(int, Seq<char>, Seq<char>)>,
    row_paints: Seq<(int, Seq<char>, Seq<char>)>,
) -> Seq<char>;

/// Draws a table with `tabled`: `Builder::from` on the rows, `Style::rounded`,
/// then `Table::modify` with a `Color` for each column paint and for each row
/// paint, in this order. The rows are of one length and every paint lies
/// within the table. The text depends on the rows and the paints alone; what
/// it is for given rows is not stated here.
#[verifier::external_body]
fn draw_table(rows: &Vec<Vec<String>>, column_paints: &Vec<Paint>, row_paints: &Vec<Paint>) -> (out:
    String)
    requires
        rows.len() > 0,
        forall|i: int| 0 <= i < rows.len() ==> (#[trigger] rows@[i]).len() == rows@[0].len(),
        forall|i: int|
            0 <= i < column_paints.len() ==> (#[trigger] column_paints@[i]).index < rows@[0].len(),
        forall|i: int| 0 <= i < row_paints.len() ==> (#[trigger] row_paints@[i]).index < rows.len(),
    ensures
        out@ == table_text(
            row_views(rows@),
            paint_views(column_paints@),
            paint_views(row_paints@),
        ),
{
    let mut table = Builder::from(rows.clone()).build();
    table.with(Style::rounded());
    for paint in column_paints {
        table.modify(Columns::one(paint.index), Color::new(&paint.prefix, &paint.suffix));
    }
    for paint in row_paints {
        table.modify(Rows::one(paint.index), Color::new(&paint.prefix, &paint.suffix));
    }
    table.to_string()
}

/// The header row of the table.
pub open spec fn header_row() -> Seq<Seq<char>> {
    seq!["Name"@, "Type"@, "Size"@, "Modified"@, "Permissions"@, "Owner"@, "Group"@]
}

/// The row of a record: name, kind, size as shown, modification text,
/// permissions, owner and group.
pub open spec fn entry_row(entry: EntryView) -> Seq<Seq<char>> {
    seq![
        entry.name,
        file_type_name(entry.e_type),
        entry.human_size,
        entry.modified,
        entry.permissions,
        entry.owner,
        entry.group,
    ]
}

/// The rows of the table: the header row, then a row for each record.
pub open spec fn table_rows(entries: Seq<EntryView>) -> Seq<Seq<Seq<char>>> {
    seq![header_row()] + entries.map_values(|e: EntryView| entry_row(e))
}

/// The colored columns of the table: the name, the size and the
/// modification text.
pub open spec fn column_colors(colors: TableColors) -> Seq<(int, Seq<char>, Seq<char>)> {
    seq![
        (0int, color_prefix(colors.name), color_suffix()),
        (2int, color_prefix(colors.size), color_suffix()),
        (3int, color_prefix(colors.date), color_suffix()),
    ]
}

/// The colored rows of the table: the header row.
pub open spec fn row_colors(colors: TableColors) -> Seq<(int, Seq<char>, Seq<char>)> {
    seq![(0int, color_prefix(colors.header), color_suffix())]
}

/// The table of the records, in the colors of the theme where `use_color` is
/// set and without colors where it is not.
pub open spec fn table_output(entries: Seq<EntryView>, use_color: bool, colors: TableColors) -> Seq<
    char,
> {
    if use_color {
        table_text(table_rows(entries), column_colors(colors), row_colors(colors))
    } else {
        table_text(
            table_rows(entries),
            Seq::<(int, Seq<char>, Seq<char>)>::empty(),
            Seq::<(int, Seq<char>, Seq<char>)>::empty(),
        )
    }
}

fn header_cells() -> (out: Vec<String>)
    ensures
        text_views(out@) == header_row(),
        out.len() == 7,
{
    let mut out: Vec<String> = Vec::new();
    out.push("Name".to_owned());
    out.push("Type".to_owned());
    out.push("Size".to_owned());
    out.push("Modified".to_owned());
    out.push("Permissions".to_owned());
    out.push("Owner".to_owned());
    out.push("Group".to_owned());
    assert(text_views(out@) =~= header_row());
    out
}

fn entry_cells(entry: &FileEntry) -> (out: Vec<String>)
    ensures
        text_views(out@) == entry_row(entry@),
        out.len() == 7,
{
    let mut out: Vec<String> = Vec::new();
    out.push(entry.name.clone());
    out.push(entry.e_type.to_string());
    out.push(entry.human_size.clone());
    out.push(entry.modified.clone());
    out.push(entry.permissions.clone());
    out.push(entry.owner.clone());
    out.push(entry.group.clone());
    assert(text_views(out@) =~= entry_row(entry@));
    out
}

fn paint_of(index: usize, color: crate::color::ColorValue) -> (out: Paint)
    ensures
        paint_view(out) == (index as int, color_prefix(color), color_suffix()),
        out.index == index,
{
    Paint { index, prefix: color.ansi_prefix(), suffix: ansi_suffix() }
}

/// Writes the records as a table with the columns Name, Type, Size,
/// Modified, Permissions, Owner and Group. With `use_color` set, the name,
/// size and modification columns and then the header row take their colors
/// from `colors`.
pub fn render_table(entries: &Vec<FileEntry>, use_color: bool, colors: &TableColors) -> (out: String)
    ensures
        out@ == table_output(entry_views(entries@), use_color, *colors),
{
    let ghost all = entry_views(entries@);
    let mut rows: Vec<Vec<String>> = Vec::new();
    rows.push(header_cells());
    let mut i: usize = 0;
    assert(row_views(rows@) =~= seq![header_row()] + all.take(0).map_values(
        |e: EntryView| entry_row(e),
    ));
    while i < entries.len()
        invariant
            i <= entries.len(),
            all == entry_views(entries@),
            rows.len() == i + 1,
            forall|k: int| 0 <= k < rows.len() ==> (#[trigger] rows@[k]).len() == 7,
            row_views(rows@) == seq![header_row()] + all.take(i as int).map_values(
                |e: EntryView| entry_row(e),
            ),
        decreases entries.len() - i,
    {
        let ghost before = row_views(rows@);
        let cells = entry_cells(&entries[i]);
        rows.push(cells);
        proof {
            assert(row_views(rows@) =~= before.push(entry_row(entries@[i as int]@)));
            assert(all.take(i + 1).map_values(|e: EntryView| entry_row(e)) =~= all.take(
                i as int,
            ).map_values(|e: EntryView| entry_row(e)).push(entry_row(entries@[i as int]@)));
        }
        i += 1;
    }
    assert(all.take(all.len() as int) =~= all);
    let mut column_paints: Vec<Paint> = Vec::new();
    let mut row_paints: Vec<Paint> = Vec::new();
    if use_color {
        column_paints.push(paint_of(0, colors.name));
        column_paints.push(paint_of(2, colors.size));
        column_paints.push(paint_of(3, colors.date));
        row_paints.push(paint_of(0, colors.header));
        assert(paint_views(column_paints@) =~= column_colors(*colors));
        assert(paint_views(row_paints@) =~= row_colors(*colors));
    } else {
        assert(paint_views(column_paints@) =~= Seq::<(int, Seq<char>, Seq<char>)>::empty());
        assert(paint_views(row_paints@) =~= Seq::<(int, Seq<char>, Seq<char>)>::empty());
    }
    draw_table(&rows, &column_paints, &row_paints)
}

/// What is written for a listing: the names, the table or JSON, as the
/// format and the compact switch select. Colors count for the table only.
pub open spec fn rendered(
    entries: Seq<EntryView>,
    format: OutputFormat,
    compact: bool,
    use_color: bool,
    theme: ThemeView,
) -> Seq<char> {
    match emitter_of(format, compact) {
        Emitter::Compact => names_text(entries),
        Emitter::Table => table_output(entries, use_color, theme.table),
        Emitter::Json => json_text(entries, false),
        Emitter::JsonPretty => json_text(entries, true),
    }
}

/// Writes a listing as one text.
pub fn render(
    entries: &Vec<FileEntry>,
    format: OutputFormat,
    compact: bool,
    use_color: bool,
    theme: &Theme,
) -> (out: String)
    ensures
        out@ == rendered(entry_views(entries@), format, compact, use_color, theme@),
{
    match select_emitter(format, compact) {
        Emitter::Compact => render_compact(entries),
        Emitter::Table => render_table(entries, use_color, &theme.table),
        Emitter::Json => render_json(entries, false),
        Emitter::JsonPretty => render_json(entries, true),
    }
}

/// What is written depends on the records, the format, the two switches and
/// the theme, and on nothing else: the same of each gives the same text. Of
/// the theme only the table colors count.
pub proof fn lemma_render_is_a_function(
    entries: Seq<EntryView>,
    others: Seq<EntryView>,
    format: OutputFormat,
    compact: bool,
    use_color: bool,
    theme: ThemeView,
    other_theme: ThemeView,
)
    requires
        entries == others,
        theme.table == other_theme.table,
    ensures
        rendered(entries, format, compact, use_color, theme) == rendered(
            others,
            format,
            compact,
            use_color,
            other_theme,
        ),
{
}

/// A listing without records is written as no text in the compact form, as
/// a table of the header row alone, and as `[]` in JSON.
pub proof fn lemma_empty_listing(use_color: bool, theme: ThemeView)
    ensures
        rendered(Seq::<EntryView>::empty(), OutputFormat::Table, true, use_color, theme)
            == Seq::<char>::empty(),
        table_rows(Seq::<EntryView>::empty()) == seq![header_row()],
        rendered(Seq::<EntryView>::empty(), OutputFormat::Json, false, use_color, theme) == "[]"@,
        rendered(Seq::<EntryView>::empty(), OutputFormat::JsonPretty, false, use_color, theme)
            == "[]"@,
{
    assert(table_rows(Seq::<EntryView>::empty()) =~= seq![header_row()]);
}

} // verus!
