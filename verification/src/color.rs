//! Colors and themes: the sixteen-member palette, its names, and the theme
//! that assigns colors to file kinds, file extensions and table columns.

use vstd::prelude::*;
use vstd::hash_map::StringHashMap;
use tabled::settings::Color;
use crate::text::{chars_of, decimal_digits, lowercase, lowercase_of, push_decimal, string_of, text_eq};
use crate::fsops::FileType;

verus! {

/// One of the sixteen terminal colors: eight base colors and their bright
/// counterparts.
#[derive(Debug, Clone, Copy, PartialEq, Eq, Hash, Structural)]
pub enum ColorValue {
    Black,
    Red,
    Green,
    Yellow,
    Blue,
    Magenta,
    Cyan,
    White,
    BrightBlack,
    BrightRed,
    BrightGreen,
    BrightYellow,
    BrightBlue,
    BrightMagenta,
    BrightCyan,
    BrightWhite,
}

/// The configuration name of a color.
pub open spec fn color_name(c: ColorValue) -> Seq<char> {
    match c {
        ColorValue::Black => "black"@,
        ColorValue::Red => "red"@,
        ColorValue::Green => "green"@,
        ColorValue::Yellow => "yellow"@,
        ColorValue::Blue => "blue"@,
        ColorValue::Magenta => "magenta"@,
        ColorValue::Cyan => "cyan"@,
        ColorValue::White => "white"@,
        ColorValue::BrightBlack => "bright_black"@,
        ColorValue::BrightRed => "bright_red"@,
        ColorValue::BrightGreen => "bright_green"@,
        ColorValue::BrightYellow => "bright_yellow"@,
        ColorValue::BrightBlue => "bright_blue"@,
        ColorValue::BrightMagenta => "bright_magenta"@,
        ColorValue::BrightCyan => "bright_cyan"@,
        ColorValue::BrightWhite => "bright_white"@,
    }
}

/// The color that a lower-case configuration name stands for, if any.
pub open spec fn color_named(name: Seq<char>) -> Option<ColorValue> {
    if name == "black"@ {
        Some(ColorValue::Black)
    }     else if name == "red"@ {
        Some(ColorValue::Red)
    }     else if name == "green"@ {
        Some(ColorValue::Green)
    }     else if name == "yellow"@ {
        Some(ColorValue::Yellow)
    }     else if name == "blue"@ {
        Some(ColorValue::Blue)
    }     else if name == "magenta"@ {
        Some(ColorValue::Magenta)
    }     else if name == "cyan"@ {
        Some(ColorValue::Cyan)
    }     else if name == "white"@ {
        Some(ColorValue::White)
    }     else if name == "bright_black"@ {
        Some(ColorValue::BrightBlack)
    }     else if name == "bright_red"@ {
        Some(ColorValue::BrightRed)
    }     else if name == "bright_green"@ {
        Some(ColorValue::BrightGreen)
    }     else if name == "bright_yellow"@ {
        Some(ColorValue::BrightYellow)
    }     else if name == "bright_blue"@ {
        Some(ColorValue::BrightBlue)
    }     else if name == "bright_magenta"@ {
        Some(ColorValue::BrightMagenta)
    }     else if name == "bright_cyan"@ {
        Some(ColorValue::BrightCyan)
    }     else if name == "bright_white"@ {
        Some(ColorValue::BrightWhite)
    } else {
        None
    }
}

/// The SGR code that selects a color as the foreground.
pub open spec fn color_code(c: ColorValue) -> u8 {
    match c {
        ColorValue::Black => 30u8,
        ColorValue::Red => 31u8,
        ColorValue::Green => 32u8,
        ColorValue::Yellow => 33u8,
        ColorValue::Blue => 34u8,
        ColorValue::Magenta => 35u8,
        ColorValue::Cyan => 36u8,
        ColorValue::White => 37u8,
        ColorValue::BrightBlack => 90u8,
        ColorValue::BrightRed => 91u8,
        ColorValue::BrightGreen => 92u8,
        ColorValue::BrightYellow => 93u8,
        ColorValue::BrightBlue => 94u8,
        ColorValue::BrightMagenta => 95u8,
        ColorValue::BrightCyan => 96u8,
        ColorValue::BrightWhite => 97u8,
    }
}

/// The names of the colors tell the colors apart: the color that is named
/// by the name of a color is that color.
pub proof fn lemma_color_names_are_distinct(c: ColorValue)
    ensures
        color_named(color_name(c)) == Some(c),
{
    reveal_strlit("black");
    reveal_strlit("red");
    reveal_strlit("green");
    reveal_strlit("yellow");
    reveal_strlit("blue");
    reveal_strlit("magenta");
    reveal_strlit("cyan");
    reveal_strlit("white");
    reveal_strlit("bright_black");
    reveal_strlit("bright_red");
    reveal_strlit("bright_green");
    reveal_strlit("bright_yellow");
    reveal_strlit("bright_blue");
    reveal_strlit("bright_magenta");
    reveal_strlit("bright_cyan");
    reveal_strlit("bright_white");
    assert("black"@.len() == 5 && "black"@[0] == 'b' && "black"@[2] == 'a');
    assert("red"@.len() == 3 && "red"@[0] == 'r' && "red"@[2] == 'd');
    assert("green"@.len() == 5 && "green"@[0] == 'g' && "green"@[2] == 'e');
    assert("yellow"@.len() == 6 && "yellow"@[0] == 'y' && "yellow"@[2] == 'l');
    assert("blue"@.len() == 4 && "blue"@[0] == 'b' && "blue"@[2] == 'u');
    assert("magenta"@.len() == 7 && "magenta"@[0] == 'm' && "magenta"@[2] == 'g');
    assert("cyan"@.len() == 4 && "cyan"@[0] == 'c' && "cyan"@[2] == 'a');
    assert("white"@.len() == 5 && "white"@[0] == 'w' && "white"@[2] == 'i');
    assert("bright_black"@.len() == 12 && "bright_black"@[7] == 'b' && "bright_black"@[9] == 'a');
    assert("bright_red"@.len() == 10 && "bright_red"@[7] == 'r' && "bright_red"@[9] == 'd');
    assert("bright_green"@.len() == 12 && "bright_green"@[7] == 'g' && "bright_green"@[9] == 'e');
    assert("bright_yellow"@.len() == 13 && "bright_yellow"@[7] == 'y' && "bright_yellow"@[9] == 'l');
    assert("bright_blue"@.len() == 11 && "bright_blue"@[7] == 'b' && "bright_blue"@[9] == 'u');
    assert("bright_magenta"@.len() == 14 && "bright_magenta"@[7] == 'm' && "bright_magenta"@[9] == 'g');
    assert("bright_cyan"@.len() == 11 && "bright_cyan"@[7] == 'c' && "bright_cyan"@[9] == 'a');
    assert("bright_white"@.len() == 12 && "bright_white"@[7] == 'w' && "bright_white"@[9] == 'i');
}

impl ColorValue {
    /// The color named by `name`, which is matched exactly: lower case,
    /// with an underscore after `bright`.
    pub fn from_lowercase(name: &str) -> (out: Option<ColorValue>)
        ensures
            out == color_named(name@),
    {
        if text_eq(name, "black") {
            Some(ColorValue::Black)
        }         else if text_eq(name, "red") {
            Some(ColorValue::Red)
        }         else if text_eq(name, "green") {
            Some(ColorValue::Green)
        }         else if text_eq(name, "yellow") {
            Some(ColorValue::Yellow)
        }         else if text_eq(name, "blue") {
            Some(ColorValue::Blue)
        }         else if text_eq(name, "magenta") {
            Some(ColorValue::Magenta)
        }         else if text_eq(name, "cyan") {
            Some(ColorValue::Cyan)
        }         else if text_eq(name, "white") {
            Some(ColorValue::White)
        }         else if text_eq(name, "bright_black") {
            Some(ColorValue::BrightBlack)
        }         else if text_eq(name, "bright_red") {
            Some(ColorValue::BrightRed)
        }         else if text_eq(name, "bright_green") {
            Some(ColorValue::BrightGreen)
        }         else if text_eq(name, "bright_yellow") {
            Some(ColorValue::BrightYellow)
        }         else if text_eq(name, "bright_blue") {
            Some(ColorValue::BrightBlue)
        }         else if text_eq(name, "bright_magenta") {
            Some(ColorValue::BrightMagenta)
        }         else if text_eq(name, "bright_cyan") {
            Some(ColorValue::BrightCyan)
        }         else if text_eq(name, "bright_white") {
            Some(ColorValue::BrightWhite)
        } else {
            None
        }
    }

    /// Parses a color name such as `bright_cyan`, without regard to case.
    pub fn from_str(s: &str) -> (out: Option<ColorValue>)
        ensures
            out == color_named(lowercase_of(s@)),
    {
        let lowered = lowercase(s);
        ColorValue::from_lowercase(lowered.as_str())
    }

    /// The configuration name of the color.
    pub fn to_string(&self) -> (out: String)
        ensures
            out@ == color_name(*self),
    {
        match self {
            ColorValue::Black => "black".to_owned(),
            ColorValue::Red => "red".to_owned(),
            ColorValue::Green => "green".to_owned(),
            ColorValue::Yellow => "yellow".to_owned(),
            ColorValue::Blue => "blue".to_owned(),
            ColorValue::Magenta => "magenta".to_owned(),
            ColorValue::Cyan => "cyan".to_owned(),
            ColorValue::White => "white".to_owned(),
            ColorValue::BrightBlack => "bright_black".to_owned(),
            ColorValue::BrightRed => "bright_red".to_owned(),
            ColorValue::BrightGreen => "bright_green".to_owned(),
            ColorValue::BrightYellow => "bright_yellow".to_owned(),
            ColorValue::BrightBlue => "bright_blue".to_owned(),
            ColorValue::BrightMagenta => "bright_magenta".to_owned(),
            ColorValue::BrightCyan => "bright_cyan".to_owned(),
            ColorValue::BrightWhite => "bright_white".to_owned(),
        }
    }

    /// The SGR code that selects the color as the foreground.
    pub fn ansi_code(self) -> (out: u8)
        ensures
            out == color_code(self),
    {
        match self {
            ColorValue::Black => 30,
            ColorValue::Red => 31,
            ColorValue::Green => 32,
            ColorValue::Yellow => 33,
            ColorValue::Blue => 34,
            ColorValue::Magenta => 35,
            ColorValue::Cyan => 36,
            ColorValue::White => 37,
            ColorValue::BrightBlack => 90,
            ColorValue::BrightRed => 91,
            ColorValue::BrightGreen => 92,
            ColorValue::BrightYellow => 93,
            ColorValue::BrightBlue => 94,
            ColorValue::BrightMagenta => 95,
            ColorValue::BrightCyan => 96,
            ColorValue::BrightWhite => 97,
        }
    }
}

/// The escape sequence that switches the foreground to a color.
pub open spec fn color_prefix(c: ColorValue) -> Seq<char> {
    seq!['\u{1b}', '['] + decimal_digits(color_code(c) as nat) + seq!['m']
}

/// The escape sequence that switches the foreground back to the default.
pub open spec fn color_suffix() -> Seq<char> {
    seq!['\u{1b}', '[', '3', '9', 'm']
}

/// The escape sequence that switches the foreground back to the default.
pub fn ansi_suffix() -> (out: String)
    ensures
        out@ == color_suffix(),
{
    let mut out = String::new();
    out.push('\u{1b}');
    out.push('[');
    out.push('3');
    out.push('9');
    out.push('m');
    assert(out@ =~= color_suffix());
    out
}

/// The color type of `tabled`, which is handed on and never looked into.
#[verifier::external_type_specification]
#[verifier::external_body]
pub struct ExColor(tabled::settings::Color);

/// The text that a `tabled` color writes before what it colors: what
/// `Color::get_prefix` gives.
pub uninterp spec fn tabled_prefix(color: Color) -> Seq<char>;

/// The text that a `tabled` color writes after what it colors: what
/// `Color::get_suffix` gives.
pub uninterp spec fn tabled_suffix(color: Color) -> Seq<char>;

/// Builds a `tabled` color with `tabled::settings::Color::new`, which keeps
/// the two texts as they are given: the one is the prefix of the color, the
/// other its suffix.
#[verifier::external_body]
fn tabled_color(prefix: &str, suffix: &str) -> (out: Color)
    ensures
        tabled_prefix(out) == prefix@,
        tabled_suffix(out) == suffix@,
{
    Color::new(prefix, suffix)
}

impl ColorValue {
    /// The escape sequence that switches the foreground to this color.
    pub fn ansi_prefix(self) -> (out: String)
        ensures
            out@ == color_prefix(self),
    {
        let mut out = String::new();
        out.push('\u{1b}');
        out.push('[');
        push_decimal(&mut out, self.ansi_code() as u64);
        out.push('m');
        assert(out@ =~= color_prefix(self));
        out
    }

    /// The color as `tabled` takes it: a foreground color that writes the
    /// escape sequence of this color before what it colors, and after it the
    /// sequence that switches back to the default foreground.
    pub fn to_tabled_color(self) -> (out: Color)
        ensures
            tabled_prefix(out) == color_prefix(self),
            tabled_suffix(out) == color_suffix(),
    {
        let prefix = self.ansi_prefix();
        let suffix = ansi_suffix();
        tabled_color(prefix.as_str(), suffix.as_str())
    }
}

/// The colors of the three kinds of entry.
#[derive(Debug, Clone, Copy, PartialEq, Eq, Structural)]
pub struct FileTypeColors {
    pub file: ColorValue,
    pub directory: ColorValue,
    pub symlink: ColorValue,
}

/// The file kind colors of the built-in theme.
pub open spec fn default_file_type_colors() -> FileTypeColors {
    FileTypeColors {
        file: ColorValue::BrightCyan,
        directory: ColorValue::BrightBlue,
        symlink: ColorValue::BrightMagenta,
    }
}

impl Default for FileTypeColors {
    fn default() -> (out: Self)
        ensures
            out == default_file_type_colors(),
    {
        FileTypeColors {
            file: ColorValue::BrightCyan,
            directory: ColorValue::BrightBlue,
            symlink: ColorValue::BrightMagenta,
        }
    }
}

/// The colors of the table: three of its columns and the header row.
#[derive(Debug, Clone, Copy, PartialEq, Eq, Structural)]
pub struct TableColors {
    pub name: ColorValue,
    pub size: ColorValue,
    pub date: ColorValue,
    pub header: ColorValue,
}

/// The table colors of the built-in theme.
pub open spec fn default_table_colors() -> TableColors {
    TableColors {
        name: ColorValue::BrightCyan,
        size: ColorValue::BrightMagenta,
        date: ColorValue::BrightYellow,
        header: ColorValue::BrightGreen,
    }
}

impl Default for TableColors {
    fn default() -> (out: Self)
        ensures
            out == default_table_colors(),
    {
        TableColors {
            name: ColorValue::BrightCyan,
            size: ColorValue::BrightMagenta,
            date: ColorValue::BrightYellow,
            header: ColorValue::BrightGreen,
        }
    }
}

/// The extension colors of the built-in theme.
pub open spec fn default_extensions() -> Map<Seq<char>, ColorValue> {
    Map::<Seq<char>, ColorValue>::empty()
        .insert("rs"@, ColorValue::Yellow)
        .insert("py"@, ColorValue::Blue)
        .insert("js"@, ColorValue::Yellow)
        .insert("ts"@, ColorValue::Blue)
        .insert("go"@, ColorValue::BrightCyan)
        .insert("c"@, ColorValue::BrightBlue)
        .insert("cpp"@, ColorValue::BrightBlue)
        .insert("java"@, ColorValue::Red)
        .insert("md"@, ColorValue::Cyan)
        .insert("txt"@, ColorValue::White)
        .insert("pdf"@, ColorValue::Red)
        .insert("toml"@, ColorValue::Red)
        .insert("json"@, ColorValue::Green)
        .insert("yaml"@, ColorValue::Magenta)
        .insert("yml"@, ColorValue::Magenta)
        .insert("xml"@, ColorValue::Yellow)
        .insert("zip"@, ColorValue::Red)
        .insert("tar"@, ColorValue::Red)
        .insert("gz"@, ColorValue::Red)
        .insert("png"@, ColorValue::Magenta)
        .insert("jpg"@, ColorValue::Magenta)
        .insert("jpeg"@, ColorValue::Magenta)
        .insert("gif"@, ColorValue::Magenta)
        .insert("svg"@, ColorValue::Yellow)
}

/// The extension colors of the built-in theme: programming languages,
/// documents, configuration files, archives and images.
pub fn default_extension_colors() -> (colors: StringHashMap<ColorValue>)
    ensures
        colors@ == default_extensions(),
{
    let mut colors: StringHashMap<ColorValue> = StringHashMap::new();
    colors.insert("rs".to_owned(), ColorValue::Yellow);
    colors.insert("py".to_owned(), ColorValue::Blue);
    colors.insert("js".to_owned(), ColorValue::Yellow);
    colors.insert("ts".to_owned(), ColorValue::Blue);
    colors.insert("go".to_owned(), ColorValue::BrightCyan);
    colors.insert("c".to_owned(), ColorValue::BrightBlue);
    colors.insert("cpp".to_owned(), ColorValue::BrightBlue);
    colors.insert("java".to_owned(), ColorValue::Red);
    colors.insert("md".to_owned(), ColorValue::Cyan);
    colors.insert("txt".to_owned(), ColorValue::White);
    colors.insert("pdf".to_owned(), ColorValue::Red);
    colors.insert("toml".to_owned(), ColorValue::Red);
    colors.insert("json".to_owned(), ColorValue::Green);
    colors.insert("yaml".to_owned(), ColorValue::Magenta);
    colors.insert("yml".to_owned(), ColorValue::Magenta);
    colors.insert("xml".to_owned(), ColorValue::Yellow);
    colors.insert("zip".to_owned(), ColorValue::Red);
    colors.insert("tar".to_owned(), ColorValue::Red);
    colors.insert("gz".to_owned(), ColorValue::Red);
    colors.insert("png".to_owned(), ColorValue::Magenta);
    colors.insert("jpg".to_owned(), ColorValue::Magenta);
    colors.insert("jpeg".to_owned(), ColorValue::Magenta);
    colors.insert("gif".to_owned(), ColorValue::Magenta);
    colors.insert("svg".to_owned(), ColorValue::Yellow);
    colors
}

/// A theme: colors for the kinds of entry, for file extensions, and for the
/// table.
pub struct Theme {
    /// Colors by kind of entry.
    pub file_types: FileTypeColors,
    /// Colors by file extension, keyed by the lower-case extension.
    pub extensions: StringHashMap<ColorValue>,
    /// Colors of the table.
    pub table: TableColors,
}

/// What a theme holds.
pub struct ThemeView {
    pub file_types: FileTypeColors,
    pub extensions: Map<Seq<char>, ColorValue>,
    pub table: TableColors,
}

impl View for Theme {
    type V = ThemeView;

    open spec fn view(&self) -> ThemeView {
        ThemeView {
            file_types: self.file_types,
            extensions: self.extensions@,
            table: self.table,
        }
    }
}

/// The built-in theme.
pub open spec fn default_theme() -> ThemeView {
    ThemeView {
        file_types: default_file_type_colors(),
        extensions: default_extensions(),
        table: default_table_colors(),
    }
}

impl Default for Theme {
    fn default() -> (out: Self)
        ensures
            out@ == default_theme(),
    {
        Theme {
            file_types: FileTypeColors::default(),
            extensions: default_extension_colors(),
            table: TableColors::default(),
        }
    }
}

/// The color section of a configuration: each part is optional.
pub struct ColorConfig {
    pub file_types: Option<FileTypeColors>,
    /// Pairs of extension and color name, in the order in which they apply.
    pub extensions: Option<Vec<(String, String)>>,
    pub table: Option<TableColors>,
}

/// A configuration as read from the user's configuration source.
pub struct ThemeConfig {
    pub colors: ColorConfig,
}

/// The texts of a list of pairs of strings.
pub open spec fn pair_texts(pairs: Seq<(String, String)>) -> Seq<(Seq<char>, Seq<char>)> {
    pairs.map_values(|p: (String, String)| (p.0@, p.1@))
}

/// `base` with the extension colors of `pairs` laid over it in order. A pair
/// whose color name is unknown changes nothing.
pub open spec fn with_extensions(
    base: Map<Seq<char>, ColorValue>,
    pairs: Seq<(Seq<char>, Seq<char>)>,
) -> Map<Seq<char>, ColorValue>
    decreases pairs.len(),
{
    if pairs.len() == 0 {
        base
    } else {
        let rest = with_extensions(base, pairs.drop_last());
        match color_named(lowercase_of(pairs.last().1)) {
            Some(c) => rest.insert(pairs.last().0, c),
            None => rest,
        }
    }
}

/// The theme that a configuration describes: the built-in theme, with each
/// part that the configuration holds laid over it.
pub open spec fn theme_of(config: ThemeConfig) -> ThemeView {
    ThemeView {
        file_types: match config.colors.file_types {
            Some(ft) => ft,
            None => default_file_type_colors(),
        },
        extensions: match config.colors.extensions {
            Some(pairs) => with_extensions(default_extensions(), pair_texts(pairs@)),
            None => default_extensions(),
        },
        table: match config.colors.table {
            Some(tc) => tc,
            None => default_table_colors(),
        },
    }
}

impl ThemeConfig {
    /// Lays the configuration over the built-in theme.
    pub fn into_theme(self) -> (theme: Theme)
        ensures
            theme@ == theme_of(self),
    {
        let mut theme = Theme::default();
        if let Some(ft) = self.colors.file_types {
            theme.file_types = ft;
        }
        if let Some(pairs) = &self.colors.extensions {
            let mut i: usize = 0;
            while i < pairs.len()
                invariant
                    i <= pairs.len(),
                    theme.file_types == theme_of(self).file_types,
                    theme.table == default_table_colors(),
                    theme.extensions@ == with_extensions(
                        default_extensions(),
                        pair_texts(pairs@).take(i as int),
                    ),
                decreases pairs.len() - i,
            {
                let ghost before = pair_texts(pairs@).take(i as int);
                let ghost after = pair_texts(pairs@).take(i + 1);
                assert(after.drop_last() =~= before);
                assert(after.last() == (pairs@[i as int].0@, pairs@[i as int].1@));
                let pair = &pairs[i];
                if let Some(color) = ColorValue::from_str(pair.1.as_str()) {
                    theme.extensions.insert(pair.0.clone(), color);
                }
                i += 1;
            }
            assert(pair_texts(pairs@).take(pairs@.len() as int) =~= pair_texts(pairs@));
        }
        if let Some(tc) = self.colors.table {
            theme.table = tc;
        }
        theme
    }
}

/// The theme to use: the one that the configuration describes, or the
/// built-in theme where no configuration could be had.
pub fn load_theme(config: Option<ThemeConfig>) -> (theme: Theme)
    ensures
        theme@ == match config {
            Some(c) => theme_of(c),
            None => default_theme(),
        },
{
    match config {
        Some(c) => c.into_theme(),
        None => Theme::default(),
    }
}

/// The position of the last `c` in `s`, or -1 where there is none.
pub open spec fn last_index_of(s: Seq<char>, c: char) -> int
    decreases s.len(),
{
    if s.len() == 0 {
        -1
    } else if s.last() == c {
        s.len() - 1
    } else {
        last_index_of(s.drop_last(), c)
    }
}

/// `p` is the position of the last `c` in `s` where `s[p]` is `c` and no
/// later character is; there is none where no character is `c`.
pub proof fn lemma_last_index_of(s: Seq<char>, c: char, p: int)
    requires
        -1 <= p < s.len(),
        p >= 0 ==> s[p] == c,
        forall|k: int| p < k < s.len() ==> s[k] != c,
    ensures
        last_index_of(s, c) == p,
    decreases s.len(),
{
    if s.len() > 0 && s.last() != c {
        lemma_last_index_of(s.drop_last(), c, p);
    }
}

/// The color of an entry: for a file, the color of its lower-cased extension
/// (the text after the last dot) where the theme has one.
pub open spec fn file_color(file_type: FileType, filename: Seq<char>, theme: ThemeView) -> ColorValue {
    match file_type {
        FileType::File => {
            let dot = last_index_of(filename, '.');
            let ext = lowercase_of(filename.subrange(dot + 1, filename.len() as int));
            if dot >= 0 && theme.extensions.contains_key(ext) {
                theme.extensions[ext]
            } else {
                theme.file_types.file
            }
        },
        FileType::Directory => theme.file_types.directory,
        FileType::Symlink => theme.file_types.symlink,
    }
}

/// The color in which to show an entry of the given kind and name.
pub fn get_file_color(file_type: &FileType, filename: &str, theme: &Theme) -> (out: ColorValue)
    ensures
        out == file_color(*file_type, filename@, theme@),
{
    match file_type {
        FileType::File => {
            let chars = chars_of(filename);
            let mut i: usize = chars.len();
            while i > 0 && chars[i - 1] != '.'
                invariant
                    i <= chars.len(),
                    forall|k: int| i <= k < chars.len() ==> chars@[k] != '.',
                decreases i,
            {
                i -= 1;
            }
            proof {
                lemma_last_index_of(chars@, '.', i as int - 1);
            }
            if i > 0 {
                let ext = string_of(&chars, i, chars.len());
                let lowered = lowercase(ext.as_str());
                if let Some(color) = theme.extensions.get(lowered.as_str()) {
                    return *color;
                }
            }
            theme.file_types.file
        },
        FileType::Directory => theme.file_types.directory,
        FileType::Symlink => theme.file_types.symlink,
    }
}

} // verus!
