//! The filter chain: extension list, name pattern, and the two size bounds.

use vstd::prelude::*;
use crate::fsops::{entry_views, EntryView, FileEntry};
use crate::glob::{glob_matches, glob_tokens, GlobPattern, GlobToken};
use crate::size::{clamp_size, parse_size, size_of_text};
use crate::text::{
    chars_of, ends_with, has_suffix, lowercase, lowercase_of, string_of, sub_vec, text_views,
};

verus! {

/// `c` is white space: a character with the Unicode property `White_Space`.
pub open spec fn is_space(c: char) -> bool {
    ||| c == ' '
    ||| ('\u{9}' <= c && c <= '\u{d}')
    ||| c == '\u{85}'
    ||| c == '\u{a0}'
    ||| c == '\u{1680}'
    ||| ('\u{2000}' <= c && c <= '\u{200a}')
    ||| c == '\u{2028}'
    ||| c == '\u{2029}'
    ||| c == '\u{202f}'
    ||| c == '\u{205f}'
    ||| c == '\u{3000}'
}

/// `s` without the white space at its end.
pub open spec fn trim_end(s: Seq<char>) -> Seq<char>
    decreases s.len(),
{
    if s.len() > 0 && is_space(s.last()) {
        trim_end(s.drop_last())
    } else {
        s
    }
}

/// `s` without the white space at its start.
pub open spec fn trim_start(s: Seq<char>) -> Seq<char>
    decreases s.len(),
{
    if s.len() > 0 && is_space(s[0]) {
        trim_start(s.drop_first())
    } else {
        s
    }
}

/// `s` without the white space at its start and at its end.
pub open spec fn trimmed(s: Seq<char>) -> Seq<char> {
    trim_start(trim_end(s))
}

/// `s` without the dot that it begins with, if it begins with one.
pub open spec fn without_leading_dot(s: Seq<char>) -> Seq<char> {
    if s.len() > 0 && s[0] == '.' {
        s.drop_first()
    } else {
        s
    }
}

/// The pieces of `s` between its commas.
pub open spec fn split_commas(s: Seq<char>) -> Seq<Seq<char>>
    decreases s.len(),
{
    if s.len() == 0 {
        seq![Seq::<char>::empty()]
    } else {
        let before = split_commas(s.drop_last());
        if s.last() == ',' {
            before.push(Seq::<char>::empty())
        } else {
            before.drop_last().push(before.last().push(s.last()))
        }
    }
}

/// `before` with the extension that `piece` names, if it names one.
pub open spec fn with_extension(before: Seq<Seq<char>>, piece: Seq<char>) -> Seq<Seq<char>> {
    let bare = without_leading_dot(trimmed(piece));
    if bare.len() > 0 {
        before.push(lowercase_of(bare))
    } else {
        before
    }
}

/// The extensions that a list of pieces names: each piece is trimmed, loses
/// a leading dot and is lower-cased; a piece of which nothing is left names
/// no extension.
pub open spec fn extensions_of(pieces: Seq<Seq<char>>) -> Seq<Seq<char>>
    decreases pieces.len(),
{
    if pieces.len() == 0 {
        Seq::<Seq<char>>::empty()
    } else {
        with_extension(extensions_of(pieces.drop_last()), pieces.last())
    }
}

/// The extensions that a comma-separated list names.
pub open spec fn normalized_extensions(list: Seq<char>) -> Seq<Seq<char>> {
    extensions_of(split_commas(list))
}

/// A name bears one of the extensions when it ends with a dot and the
/// extension. The name is taken as it is, in its own case. An empty list is
/// borne by every name.
pub open spec fn bears_extension(name: Seq<char>, extensions: Seq<Seq<char>>) -> bool {
    extensions.len() == 0 || exists|i: int|
        0 <= i < extensions.len() && ends_with(name, seq!['.'] + #[trigger] extensions[i])
}

fn is_space_char(c: char) -> (out: bool)
    ensures
        out == is_space(c),
{
    c == ' ' || ('\u{9}' <= c && c <= '\u{d}') || c == '\u{85}' || c == '\u{a0}' || c == '\u{1680}'
        || ('\u{2000}' <= c && c <= '\u{200a}') || c == '\u{2028}' || c == '\u{2029}' || c
        == '\u{202f}' || c == '\u{205f}' || c == '\u{3000}'
}

proof fn lemma_trim_start_skip(s: Seq<char>, k: int)
    requires
        0 <= k <= s.len(),
        forall|i: int| 0 <= i < k ==> is_space(s[i]),
    ensures
        trim_start(s) == trim_start(s.skip(k)),
    decreases k,
{
    if k > 0 {
        assert(s.drop_first().skip(k - 1) =~= s.skip(k));
        lemma_trim_start_skip(s.drop_first(), k - 1);
    } else {
        assert(s.skip(0) =~= s);
    }
}

/// A copy of `chars` without the white space at its start and at its end.
pub fn trim_chars(chars: &Vec<char>) -> (out: Vec<char>)
    ensures
        out@ == trimmed(chars@),
{
    let mut hi: usize = chars.len();
    assert(chars@.take(chars@.len() as int) =~= chars@);
    while hi > 0 && is_space_char(chars[hi - 1])
        invariant
            hi <= chars.len(),
            trim_end(chars@) == trim_end(chars@.take(hi as int)),
        decreases hi,
    {
        assert(chars@.take(hi as int).drop_last() =~= chars@.take(hi - 1));
        hi -= 1;
    }
    let mut lo: usize = 0;
    while lo < hi && is_space_char(chars[lo])
        invariant
            lo <= hi <= chars.len(),
            forall|i: int| 0 <= i < lo ==> is_space(chars@[i]),
        decreases hi - lo,
    {
        lo += 1;
    }
    proof {
        let kept = chars@.take(hi as int);
        assert(trim_end(chars@) == kept);
        lemma_trim_start_skip(kept, lo as int);
        assert(kept.skip(lo as int) =~= chars@.subrange(lo as int, hi as int));
    }
    sub_vec(chars, lo, hi)
}

fn push_extension(out: &mut Vec<String>, piece: &Vec<char>)
    ensures
        text_views(final(out)@) == with_extension(text_views(old(out)@), piece@),
{
    let kept = trim_chars(piece);
    let start: usize = if kept.len() > 0 && kept[0] == '.' {
        1
    } else {
        0
    };
    if start < kept.len() {
        let bare = string_of(&kept, start, kept.len());
        assert(bare@ =~= without_leading_dot(trimmed(piece@)));
        let extension = lowercase(bare.as_str());
        out.push(extension);
        assert(text_views(out@) =~= text_views(old(out)@).push(extension@));
    } else {
        assert(without_leading_dot(trimmed(piece@)).len() == 0);
    }
}

/// Reads a comma-separated list of extensions. Each is trimmed, loses a
/// leading dot and is lower-cased; what is empty after that is left out.
pub fn normalize_extensions(list: &str) -> (out: Vec<String>)
    ensures
        text_views(out@) == normalized_extensions(list@),
{
    let chars = chars_of(list);
    let mut out: Vec<String> = Vec::new();
    let mut piece: Vec<char> = Vec::new();
    let ghost mut finished: Seq<Seq<char>> = Seq::empty();
    let mut i: usize = 0;
    assert(chars@.take(0) =~= Seq::<char>::empty());
    assert(text_views(out@) =~= extensions_of(finished));
    while i < chars.len()
        invariant
            i <= chars.len(),
            split_commas(chars@.take(i as int)) == finished.push(piece@),
            text_views(out@) == extensions_of(finished),
        decreases chars.len() - i,
    {
        proof {
            assert(chars@.take(i + 1).drop_last() =~= chars@.take(i as int));
            assert(chars@.take(i + 1).last() == chars@[i as int]);
            assert(finished.push(piece@).drop_last() =~= finished);
        }
        if chars[i] == ',' {
            push_extension(&mut out, &piece);
            proof {
                finished = finished.push(piece@);
                assert(finished.drop_last() =~= finished.take(finished.len() - 1));
            }
            piece = Vec::new();
        } else {
            piece.push(chars[i]);
        }
        i += 1;
    }
    assert(chars@.take(chars@.len() as int) =~= chars@);
    push_extension(&mut out, &piece);
    assert(finished.push(piece@).drop_last() =~= finished);
    out
}

/// Tests whether a name bears one of the extensions of a list; every name
/// bears the empty list.
pub fn has_extension(name: &str, extensions: &Vec<String>) -> (out: bool)
    ensures
        out == bears_extension(name@, text_views(extensions@)),
{
    if extensions.len() == 0 {
        return true;
    }
    let chars = chars_of(name);
    let mut i: usize = 0;
    while i < extensions.len()
        invariant
            i <= extensions.len(),
            chars@ == name@,
            forall|k: int|
                0 <= k < i ==> !ends_with(name@, seq!['.'] + #[trigger] text_views(extensions@)[k]),
        decreases extensions.len() - i,
    {
        let mut suffix: Vec<char> = Vec::new();
        suffix.push('.');
        let mut letters = chars_of(extensions[i].as_str());
        suffix.append(&mut letters);
        assert(suffix@ =~= seq!['.'] + text_views(extensions@)[i as int]);
        if has_suffix(&chars, &suffix) {
            return true;
        }
        i += 1;
    }
    false
}

/// The error of a request that cannot be carried out.
#[derive(Debug, Clone, Copy, PartialEq, Eq, Structural)]
pub enum RequestError {
    /// The name pattern is not valid.
    InvalidPattern,
    /// The lower size bound cannot be read.
    InvalidMinSize,
    /// The upper size bound cannot be read.
    InvalidMaxSize,
    /// The lower size bound is above the upper one.
    InvalidSizeRange,
}

/// The filters of a request, ready to be applied.
#[derive(Debug, Clone)]
pub struct FilterConfig {
    /// The extensions to keep; empty where every name is kept.
    pub extensions: Vec<String>,
    /// The pattern that a name must match, if any.
    pub pattern: Option<GlobPattern>,
    /// The least size to keep, if any.
    pub min_size: Option<u64>,
    /// The greatest size to keep, if any.
    pub max_size: Option<u64>,
}

/// What a filter configuration holds.
pub struct FilterView {
    pub extensions: Seq<Seq<char>>,
    pub pattern: Option<Seq<GlobToken>>,
    pub min_size: Option<u64>,
    pub max_size: Option<u64>,
}

impl View for FilterConfig {
    type V = FilterView;

    open spec fn view(&self) -> FilterView {
        FilterView {
            extensions: text_views(self.extensions@),
            pattern: match self.pattern {
                Some(p) => Some(p@),
                None => None,
            },
            min_size: self.min_size,
            max_size: self.max_size,
        }
    }
}

/// The text of an optional string slice.
pub open spec fn optional_str(s: Option<&str>) -> Option<Seq<char>> {
    match s {
        Some(text) => Some(text@),
        None => None,
    }
}

/// The size that an optional bound stands for, where it can be read.
pub open spec fn bound_of(text: Option<Seq<char>>) -> Option<Option<u64>> {
    match text {
        None => Some(None),
        Some(t) => match size_of_text(trimmed(t)) {
            Some(v) => Some(Some(clamp_size(v))),
            None => None,
        },
    }
}

/// The filters that a request asks for, or the error with which the request
/// fails. The pattern is checked first, then the lower bound, the upper
/// bound, and that the lower bound is not above the upper one.
pub open spec fn filters_of(
    filter_ext: Option<Seq<char>>,
    filter_name: Option<Seq<char>>,
    min_size: Option<Seq<char>>,
    max_size: Option<Seq<char>>,
) -> Result<FilterView, RequestError> {
    if filter_name is Some && glob_tokens(filter_name.unwrap()) is None {
        Err(RequestError::InvalidPattern)
    } else if bound_of(min_size) is None {
        Err(RequestError::InvalidMinSize)
    } else if bound_of(max_size) is None {
        Err(RequestError::InvalidMaxSize)
    } else if bound_of(min_size).unwrap() is Some && bound_of(max_size).unwrap() is Some
        && bound_of(min_size).unwrap().unwrap() > bound_of(max_size).unwrap().unwrap() {
        Err(RequestError::InvalidSizeRange)
    } else {
        Ok(
            FilterView {
                extensions: match filter_ext {
                    Some(list) => normalized_extensions(list),
                    None => Seq::<Seq<char>>::empty(),
                },
                pattern: match filter_name {
                    Some(p) => glob_tokens(p),
                    None => None,
                },
                min_size: bound_of(min_size).unwrap(),
                max_size: bound_of(max_size).unwrap(),
            },
        )
    }
}

/// The extension filter accepts a record.
pub open spec fn extension_accepts(config: FilterView, entry: EntryView) -> bool {
    bears_extension(entry.name, config.extensions)
}

/// The name filter accepts a record.
pub open spec fn pattern_accepts(config: FilterView, entry: EntryView) -> bool {
    config.pattern is None || glob_matches(config.pattern.unwrap(), entry.name)
}

/// The lower size bound accepts a record.
pub open spec fn min_size_accepts(config: FilterView, entry: EntryView) -> bool {
    config.min_size is None || entry.len_bytes >= config.min_size.unwrap()
}

/// The upper size bound accepts a record.
pub open spec fn max_size_accepts(config: FilterView, entry: EntryView) -> bool {
    config.max_size is None || entry.len_bytes <= config.max_size.unwrap()
}

/// The chain accepts a record when each of its four filters does; a filter
/// that the request did not ask for accepts every record.
pub open spec fn chain_accepts(config: FilterView, entry: EntryView) -> bool {
    &&& extension_accepts(config, entry)
    &&& pattern_accepts(config, entry)
    &&& min_size_accepts(config, entry)
    &&& max_size_accepts(config, entry)
}

fn read_bound(text: Option<&str>) -> (out: Option<Option<u64>>)
    ensures
        out == bound_of(optional_str(text)),
{
    match text {
        None => Some(None),
        Some(t) => {
            let chars = chars_of(t);
            let kept = trim_chars(&chars);
            let token = string_of(&kept, 0, kept.len());
            assert(token@ =~= trimmed(t@));
            match parse_size(token.as_str()) {
                Ok(v) => Some(Some(v)),
                Err(_) => None,
            }
        },
    }
}

impl FilterConfig {
    /// Builds the filters of a request from its four texts: the extension
    /// list, the name pattern, and the lower and the upper size bound, each
    /// of which may be absent. The size bounds are trimmed before they are
    /// read.
    pub fn new(
        filter_ext: Option<&str>,
        filter_name: Option<&str>,
        min_size: Option<&str>,
        max_size: Option<&str>,
    ) -> (out: Result<FilterConfig, RequestError>)
        ensures
            match out {
                Ok(config) => filters_of(
                    optional_str(filter_ext),
                    optional_str(filter_name),
                    optional_str(min_size),
                    optional_str(max_size),
                ) == Ok::<FilterView, RequestError>(config@),
                Err(e) => filters_of(
                    optional_str(filter_ext),
                    optional_str(filter_name),
                    optional_str(min_size),
                    optional_str(max_size),
                ) == Err::<FilterView, RequestError>(e),
            },
    {
        let pattern = match filter_name {
            Some(p) => match GlobPattern::new(p) {
                Ok(compiled) => Some(compiled),
                Err(_) => {
                    return Err(RequestError::InvalidPattern);
                },
            },
            None => None,
        };
        let low = match read_bound(min_size) {
            Some(bound) => bound,
            None => {
                return Err(RequestError::InvalidMinSize);
            },
        };
        let high = match read_bound(max_size) {
            Some(bound) => bound,
            None => {
                return Err(RequestError::InvalidMaxSize);
            },
        };
        if let Some(least) = low {
            if let Some(most) = high {
                if least > most {
                    return Err(RequestError::InvalidSizeRange);
                }
            }
        }
        let extensions = match filter_ext {
            Some(list) => normalize_extensions(list),
            None => Vec::new(),
        };
        assert(filter_ext is None ==> text_views(extensions@) =~= Seq::<Seq<char>>::empty());
        Ok(FilterConfig { extensions, pattern, min_size: low, max_size: high })
    }

    /// Tests whether the chain accepts a record.
    pub fn accepts(&self, entry: &FileEntry) -> (out: bool)
        ensures
            out == chain_accepts(self@, entry@),
    {
        if !has_extension(entry.name.as_str(), &self.extensions) {
            return false;
        }
        if let Some(pattern) = &self.pattern {
            if !pattern.matches(entry.name.as_str()) {
                return false;
            }
        }
        if let Some(least) = self.min_size {
            if entry.len_bytes < least {
                return false;
            }
        }
        if let Some(most) = self.max_size {
            if entry.len_bytes > most {
                return false;
            }
        }
        true
    }
}

/// Keeps the records that the chain accepts, in their order.
pub fn apply_filters(entries: Vec<FileEntry>, config: &FilterConfig) -> (out: Vec<FileEntry>)
    ensures
        entry_views(out@) == entry_views(entries@).filter(
            |e: EntryView| chain_accepts(config@, e),
        ),
{
    let ghost keep = |e: EntryView| chain_accepts(config@, e);
    let ghost all = entry_views(entries@);
    let mut out: Vec<FileEntry> = Vec::new();
    let mut i: usize = 0;
    assert(all.take(0).filter(keep) =~= Seq::<EntryView>::empty()) by {
        reveal(Seq::filter);
    }
    assert(entry_views(out@) =~= Seq::<EntryView>::empty());
    while i < entries.len()
        invariant
            i <= entries.len(),
            all == entry_views(entries@),
            keep == |e: EntryView| chain_accepts(config@, e),
            entry_views(out@) == all.take(i as int).filter(keep),
        decreases entries.len() - i,
    {
        let ghost before = entry_views(out@);
        proof {
            assert(all.take(i + 1).drop_last() =~= all.take(i as int));
            assert(all.take(i + 1).last() == entries@[i as int]@);
            reveal(Seq::filter);
        }
        if config.accepts(&entries[i]) {
            let copy = entries[i].duplicate();
            out.push(copy);
            assert(entry_views(out@) =~= before.push(copy@));
        }
        i += 1;
    }
    assert(all.take(all.len() as int) =~= all);
    out
}

proof fn lemma_filter_twice<A>(s: Seq<A>, p: spec_fn(A) -> bool, q: spec_fn(A) -> bool)
    ensures
        s.filter(p).filter(q) == s.filter(|x: A| p(x) && q(x)),
    decreases s.len(),
{
    reveal(Seq::filter);
    if s.len() > 0 {
        lemma_filter_twice(s.drop_last(), p, q);
        if p(s.last()) {
            assert(s.drop_last().filter(p).push(s.last()).drop_last() =~= s.drop_last().filter(p));
        }
    }
}

proof fn lemma_filter_same<A>(s: Seq<A>, p: spec_fn(A) -> bool, q: spec_fn(A) -> bool)
    requires
        forall|x: A| #[trigger] p(x) == q(x),
    ensures
        s.filter(p) == s.filter(q),
    decreases s.len(),
{
    reveal(Seq::filter);
    if s.len() > 0 {
        lemma_filter_same(s.drop_last(), p, q);
    }
}

/// The chain does not depend on the order of its filters: applying the four
/// filters one after another, in the order of the chain or in the opposite
/// order, keeps exactly the records that every filter accepts.
pub proof fn lemma_filter_chain_commutes(records: Seq<EntryView>, config: FilterView)
    ensures
        records.filter(|e: EntryView| extension_accepts(config, e)).filter(
            |e: EntryView| pattern_accepts(config, e),
        ).filter(|e: EntryView| min_size_accepts(config, e)).filter(
            |e: EntryView| max_size_accepts(config, e),
        ) == records.filter(|e: EntryView| chain_accepts(config, e)),
        records.filter(|e: EntryView| max_size_accepts(config, e)).filter(
            |e: EntryView| min_size_accepts(config, e),
        ).filter(|e: EntryView| pattern_accepts(config, e)).filter(
            |e: EntryView| extension_accepts(config, e),
        ) == records.filter(|e: EntryView| chain_accepts(config, e)),
{
    let ext = |e: EntryView| extension_accepts(config, e);
    let pat = |e: EntryView| pattern_accepts(config, e);
    let low = |e: EntryView| min_size_accepts(config, e);
    let high = |e: EntryView| max_size_accepts(config, e);
    let all = |e: EntryView| chain_accepts(config, e);
    let ext_pat = |e: EntryView| ext(e) && pat(e);
    let ext_pat_low = |e: EntryView| ext_pat(e) && low(e);
    let forward = |e: EntryView| ext_pat_low(e) && high(e);
    lemma_filter_twice(records, ext, pat);
    lemma_filter_twice(records, ext_pat, low);
    lemma_filter_twice(records, ext_pat_low, high);
    lemma_filter_same(records, forward, all);
    let high_low = |e: EntryView| high(e) && low(e);
    let high_low_pat = |e: EntryView| high_low(e) && pat(e);
    let backward = |e: EntryView| high_low_pat(e) && ext(e);
    lemma_filter_twice(records, high, low);
    lemma_filter_twice(records, high_low, pat);
    lemma_filter_twice(records, high_low_pat, ext);
    lemma_filter_same(records, backward, all);
}

/// With the lower bound equal to the upper bound, the two size filters
/// accept exactly the records of that size.
pub proof fn lemma_equal_bounds_keep_exact_size(config: FilterView, entry: EntryView)
    requires
        config.min_size is Some,
        config.max_size == config.min_size,
    ensures
        min_size_accepts(config, entry) && max_size_accepts(config, entry) <==> entry.len_bytes
            == config.min_size.unwrap(),
        chain_accepts(config, entry) ==> entry.len_bytes == config.min_size.unwrap(),
{
}

} // verus!
