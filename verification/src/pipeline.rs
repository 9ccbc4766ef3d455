//! The driver of a listing: a request is checked, the directories are walked,
//! and what was found is filtered, sorted and written.

use vstd::prelude::*;
use crate::color::{Theme, ThemeView};
use crate::filter::{
    apply_filters, chain_accepts, filters_of, FilterConfig, FilterView, RequestError,
};
use crate::fsops::{
    entry_views, get_files, is_hidden_name, lemma_listed_records, lists, optional_text, DirItem,
    EntryView, FileEntry,
};
use crate::size::human_size_text;
use crate::render::{render, rendered, OutputFormat};
use crate::sort::{
    is_stable_sort, lemma_stable_sort_is_unique, lemma_stable_sort_keeps_records, sort_entries,
    SortBy,
};
use crate::walk::{Frame, Walk, WalkConfig, WalkView};

verus! {

/// What a listing is asked to do.
#[derive(Debug, Clone)]
pub struct Request {
    /// The directory to list.
    pub path: String,
    /// Whether records of hidden names are kept.
    pub include_hidden: bool,
    /// Whether the directories below the root are listed too.
    pub tree: bool,
    /// The depth bound of tree mode; it counts in tree mode only.
    pub max_depth: Option<u32>,
    /// A comma-separated list of extensions to keep.
    pub filter_ext: Option<String>,
    /// A glob pattern that names must match.
    pub filter_name: Option<String>,
    /// The least size to keep, as text.
    pub min_size: Option<String>,
    /// The greatest size to keep, as text.
    pub max_size: Option<String>,
    pub sort_by: SortBy,
    pub format: OutputFormat,
    /// Whether the table format gives way to one name per line.
    pub compact: bool,
    pub use_color: bool,
}

/// The error with which a listing ends.
#[derive(Debug, Clone, Copy, PartialEq, Eq, Structural)]
pub enum PipelineError {
    /// The request cannot be carried out.
    InvalidRequest(RequestError),
    /// The root directory cannot be read.
    RootRead,
}

/// How the walk of a request goes; the depth bound counts in tree mode only.
pub open spec fn walk_config_of(request: Request) -> WalkConfig {
    WalkConfig {
        include_hidden: request.include_hidden,
        tree: request.tree,
        max_depth: if request.tree {
            request.max_depth
        } else {
            None
        },
    }
}

/// The filters of a request, or the error with which it fails.
pub open spec fn request_filters(request: Request) -> Result<FilterView, RequestError> {
    filters_of(
        optional_text(request.filter_ext),
        optional_text(request.filter_name),
        optional_text(request.min_size),
        optional_text(request.max_size),
    )
}

/// `text` is what is written for `records`: the records that the filters
/// accept, in a stable order by the key, in the format asked for.
pub open spec fn is_output(
    text: Seq<char>,
    records: Seq<EntryView>,
    filters: FilterView,
    sort_by: SortBy,
    format: OutputFormat,
    compact: bool,
    use_color: bool,
    theme: ThemeView,
) -> bool {
    exists|sorted: Seq<EntryView>|
        {
            &&& is_stable_sort(
                records.filter(|e: EntryView| chain_accepts(filters, e)),
                sorted,
                sort_by,
            )
            &&& text == rendered(sorted, format, compact, use_color, theme)
        }
}

/// The exit code of a listing: 0 for a listing that was written, 2 for a
/// request that cannot be carried out, and 1 for a root that cannot be read.
pub open spec fn exit_code_of(error: Option<PipelineError>) -> u8 {
    match error {
        None => 0,
        Some(PipelineError::InvalidRequest(_)) => 2,
        Some(PipelineError::RootRead) => 1,
    }
}

/// The exit code with which a listing ends.
pub fn exit_code(error: Option<PipelineError>) -> (out: u8)
    ensures
        out == exit_code_of(error),
{
    match error {
        None => 0,
        Some(PipelineError::InvalidRequest(_)) => 2,
        Some(PipelineError::RootRead) => 1,
    }
}

/// What is told of an error.
pub open spec fn error_text(error: PipelineError) -> Seq<char> {
    match error {
        PipelineError::InvalidRequest(RequestError::InvalidPattern) => "invalid name pattern"@,
        PipelineError::InvalidRequest(RequestError::InvalidMinSize) => "invalid minimum size"@,
        PipelineError::InvalidRequest(RequestError::InvalidMaxSize) => "invalid maximum size"@,
        PipelineError::InvalidRequest(RequestError::InvalidSizeRange) =>
            "invalid size range: the minimum is above the maximum"@,
        PipelineError::RootRead => "failed to read directory"@,
    }
}

impl PipelineError {
    /// The message that tells of the error.
    pub fn to_string(&self) -> (out: String)
        ensures
            out@ == error_text(*self),
    {
        match self {
            PipelineError::InvalidRequest(RequestError::InvalidPattern) =>
                "invalid name pattern".to_owned(),
            PipelineError::InvalidRequest(RequestError::InvalidMinSize) =>
                "invalid minimum size".to_owned(),
            PipelineError::InvalidRequest(RequestError::InvalidMaxSize) =>
                "invalid maximum size".to_owned(),
            PipelineError::InvalidRequest(RequestError::InvalidSizeRange) =>
                "invalid size range: the minimum is above the maximum".to_owned(),
            PipelineError::RootRead => "failed to read directory".to_owned(),
        }
    }
}

/// What is written to a file in place of the standard output: the listing,
/// ended by a line break.
pub fn file_payload(text: &str) -> (out: String)
    ensures
        out@ == text@ + seq!['\n'],
{
    let mut out = text.to_owned();
    out.push('\n');
    assert(out@ =~= text@ + seq!['\n']);
    out
}

fn as_text(text: &Option<String>) -> (out: Option<&str>)
    ensures
        crate::filter::optional_str(out) == optional_text(*text),
{
    match text {
        Some(s) => Some(s.as_str()),
        None => None,
    }
}

/// Checks a request and builds its filters. Nothing is read before this
/// succeeds.
pub fn validate(request: &Request) -> (out: Result<FilterConfig, RequestError>)
    ensures
        match out {
            Ok(filters) => request_filters(*request) == Ok::<FilterView, RequestError>(filters@),
            Err(e) => request_filters(*request) == Err::<FilterView, RequestError>(e),
        },
{
    FilterConfig::new(
        as_text(&request.filter_ext),
        as_text(&request.filter_name),
        as_text(&request.min_size),
        as_text(&request.max_size),
    )
}

/// Filters, sorts and writes the records of a listing.
pub fn finish_listing(
    records: Vec<FileEntry>,
    filters: &FilterConfig,
    sort_by: SortBy,
    format: OutputFormat,
    compact: bool,
    use_color: bool,
    theme: &Theme,
) -> (out: String)
    ensures
        is_output(
            out@,
            entry_views(records@),
            filters@,
            sort_by,
            format,
            compact,
            use_color,
            theme@,
        ),
{
    let mut kept = apply_filters(records, filters);
    sort_entries(&mut kept, sort_by);
    let out = render(&kept, format, compact, use_color, theme);
    assert(is_stable_sort(
        entry_views(records@).filter(|e: EntryView| chain_accepts(filters@, e)),
        entry_views(kept@),
        sort_by,
    ));
    out
}

/// A listing under way: the filters of the request, the walk, and how the
/// result is sorted and written.
pub struct Pipeline {
    pub filters: FilterConfig,
    pub walk: Walk,
    pub sort_by: SortBy,
    pub format: OutputFormat,
    pub compact: bool,
    pub use_color: bool,
}

impl Pipeline {
    /// Begins a listing: the request is checked, and the walk stands before
    /// the root.
    pub fn start(request: &Request) -> (out: Result<Pipeline, RequestError>)
        ensures
            match out {
                Ok(pipeline) => {
                    &&& request_filters(*request) == Ok::<FilterView, RequestError>(
                        pipeline.filters@,
                    )
                    &&& pipeline.walk@ == (WalkView {
                        config: walk_config_of(*request),
                        frames: seq![Frame { dir: 0, depth: 0 }],
                        head: 0,
                        records: Seq::<EntryView>::empty(),
                    })
                    &&& pipeline.sort_by == request.sort_by
                    &&& pipeline.format == request.format
                    &&& pipeline.compact == request.compact
                    &&& pipeline.use_color == request.use_color
                },
                Err(e) => request_filters(*request) == Err::<FilterView, RequestError>(e),
            },
    {
        let filters = match validate(request) {
            Ok(filters) => filters,
            Err(e) => {
                return Err(e);
            },
        };
        let config = WalkConfig {
            include_hidden: request.include_hidden,
            tree: request.tree,
            max_depth: if request.tree {
                request.max_depth
            } else {
                None
            },
        };
        Ok(
            Pipeline {
                filters,
                walk: Walk::new(config),
                sort_by: request.sort_by,
                format: request.format,
                compact: request.compact,
                use_color: request.use_color,
            },
        )
    }

    /// Ends a listing: what the walk collected is filtered, sorted and
    /// written.
    pub fn finish(self, theme: &Theme) -> (out: String)
        ensures
            is_output(
                out@,
                self.walk@.records,
                self.filters@,
                self.sort_by,
                self.format,
                self.compact,
                self.use_color,
                theme@,
            ),
    {
        let records = self.walk.into_records();
        finish_listing(
            records,
            &self.filters,
            self.sort_by,
            self.format,
            self.compact,
            self.use_color,
            theme,
        )
    }
}

/// Lists one directory from what was read there: the items of the
/// directory, or `None` where it could not be read. The request is checked
/// first, and of a request that fails nothing is written.
pub fn list_directory(request: &Request, theme: &Theme, listing: Option<Vec<DirItem>>) -> (out:
    Result<String, PipelineError>)
    ensures
        match request_filters(*request) {
            Err(e) => out == Err::<String, PipelineError>(PipelineError::InvalidRequest(e)),
            Ok(filters) => match listing {
                None => out == Err::<String, PipelineError>(PipelineError::RootRead),
                Some(items) => out is Ok && exists|records: Seq<EntryView>|
                    {
                        &&& lists(records, items@, request.include_hidden)
                        &&& is_output(
                            out.unwrap()@,
                            records,
                            filters,
                            request.sort_by,
                            request.format,
                            request.compact,
                            request.use_color,
                            theme@,
                        )
                    },
            },
        },
{
    let filters = match validate(request) {
        Ok(filters) => filters,
        Err(e) => {
            return Err(PipelineError::InvalidRequest(e));
        },
    };
    let items = match listing {
        Some(items) => items,
        None => {
            return Err(PipelineError::RootRead);
        },
    };
    let records = get_files(&items, request.include_hidden);
    let ghost found = entry_views(records@);
    let text = finish_listing(
        records,
        &filters,
        request.sort_by,
        request.format,
        request.compact,
        request.use_color,
        theme,
    );
    assert(lists(found, items@, request.include_hidden));
    Ok(text)
}

/// No record of what is written has a hidden name unless hidden names are
/// kept: the records that are written are among those that were listed.
pub proof fn lemma_output_has_no_hidden_names(
    records: Seq<EntryView>,
    items: Seq<DirItem>,
    include_hidden: bool,
    filters: FilterView,
    sorted: Seq<EntryView>,
    sort_by: SortBy,
)
    requires
        lists(records, items, include_hidden),
        is_stable_sort(records.filter(|e: EntryView| chain_accepts(filters, e)), sorted, sort_by),
    ensures
        forall|i: int|
            0 <= i < sorted.len() ==> include_hidden || !is_hidden_name((#[trigger] sorted[i]).name),
        forall|i: int| 0 <= i < sorted.len() ==> chain_accepts(filters, #[trigger] sorted[i]),
        forall|i: int|
            0 <= i < sorted.len() ==> (#[trigger] sorted[i]).human_size == human_size_text(
                sorted[i].len_bytes as nat,
            ),
{
    let keep = |e: EntryView| chain_accepts(filters, e);
    let kept = records.filter(keep);
    lemma_listed_records(records, items, include_hidden);
    lemma_stable_sort_keeps_records(kept, sorted, sort_by);
    assert forall|i: int| 0 <= i < sorted.len() implies (include_hidden || !is_hidden_name(
        (#[trigger] sorted[i]).name,
    )) && chain_accepts(filters, sorted[i]) && sorted[i].human_size == human_size_text(
        sorted[i].len_bytes as nat,
    ) by {
        assert(kept.contains(sorted[i]));
        let k = choose|k: int| 0 <= k < kept.len() && kept[k] == sorted[i];
        records.lemma_filter_pred(keep, k);
        records.lemma_filter_contains_rev(keep, kept[k]);
        let j = choose|j: int| 0 <= j < records.len() && records[j] == kept[k];
        assert(records[j] == sorted[i]);
    }
}

/// An empty directory gives an empty listing: what is written is what is
/// written for no records.
pub proof fn lemma_empty_directory(
    text: Seq<char>,
    records: Seq<EntryView>,
    include_hidden: bool,
    filters: FilterView,
    sort_by: SortBy,
    format: OutputFormat,
    compact: bool,
    use_color: bool,
    theme: ThemeView,
)
    requires
        lists(records, Seq::<DirItem>::empty(), include_hidden),
        is_output(text, records, filters, sort_by, format, compact, use_color, theme),
    ensures
        records.len() == 0,
        text == rendered(Seq::<EntryView>::empty(), format, compact, use_color, theme),
{
    let keep = |e: EntryView| chain_accepts(filters, e);
    lemma_listed_records(records, Seq::<DirItem>::empty(), include_hidden);
    records.lemma_filter_len(keep);
    let sorted = choose|sorted: Seq<EntryView>|
        {
            &&& is_stable_sort(records.filter(keep), sorted, sort_by)
            &&& text == rendered(sorted, format, compact, use_color, theme)
        };
    lemma_stable_sort_keeps_records(records.filter(keep), sorted, sort_by);
    assert(sorted =~= Seq::<EntryView>::empty());
}

/// What is written for a listing is settled by the records, the filters,
/// the key, the format, the two switches and the theme: there is one output.
pub proof fn lemma_output_is_unique(
    one: Seq<char>,
    other: Seq<char>,
    records: Seq<EntryView>,
    filters: FilterView,
    sort_by: SortBy,
    format: OutputFormat,
    compact: bool,
    use_color: bool,
    theme: ThemeView,
)
    requires
        is_output(one, records, filters, sort_by, format, compact, use_color, theme),
        is_output(other, records, filters, sort_by, format, compact, use_color, theme),
    ensures
        one == other,
{
    let kept = records.filter(|e: EntryView| chain_accepts(filters, e));
    let first = choose|sorted: Seq<EntryView>|
        {
            &&& is_stable_sort(kept, sorted, sort_by)
            &&& one == rendered(sorted, format, compact, use_color, theme)
        };
    let second = choose|sorted: Seq<EntryView>|
        {
            &&& is_stable_sort(kept, sorted, sort_by)
            &&& other == rendered(sorted, format, compact, use_color, theme)
        };
    lemma_stable_sort_is_unique(kept, first, second, sort_by);
}

} // verus!
