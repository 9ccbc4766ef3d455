//! The sorter: a stable merge sort of the records by name, size or
//! modification text.

use vstd::prelude::*;
use vstd::seq_lib::seq_to_set_is_finite;
use vstd::set_lib::{lemma_int_range, lemma_subset_equality, set_int_range};
use vstd::utf8::encode_utf8;
use crate::fsops::{entry_views, EntryView, FileEntry};
use crate::text::{
    lemma_bytes_lt_asymmetric, lemma_bytes_lt_total, lemma_bytes_lt_transitive, str_lt, text_lt,
};

verus! {

/// The key by which records are sorted.
#[derive(Debug, Clone, Copy, PartialEq, Eq, Structural)]
pub enum SortBy {
    /// By name, in the order of the bytes of the names.
    Name,
    /// By size in bytes.
    Size,
    /// By the modification text, in the order of its bytes. This is the order
    /// of the text as shown, which begins with the day of the week, and not
    /// the order of the times.
    Date,
}

/// The key of `a` is strictly below the key of `b`.
pub open spec fn key_lt(a: EntryView, b: EntryView, by: SortBy) -> bool {
    match by {
        SortBy::Name => text_lt(a.name, b.name),
        SortBy::Size => a.len_bytes < b.len_bytes,
        SortBy::Date => text_lt(a.modified, b.modified),
    }
}

/// The records are in non-decreasing order of the key.
pub open spec fn is_sorted(records: Seq<EntryView>, by: SortBy) -> bool {
    forall|i: int, j: int|
        0 <= i < j < records.len() ==> !key_lt(#[trigger] records[j], #[trigger] records[i], by)
}

/// In a stable sort, the record at position `x` comes before the one at
/// position `y`: its key is below, or the keys are level and `x` is the
/// earlier position.
pub open spec fn comes_before(records: Seq<EntryView>, by: SortBy, x: int, y: int) -> bool {
    key_lt(records[x], records[y], by) || (!key_lt(records[y], records[x], by) && x < y)
}

/// `order` lists positions of `records` between `lo` and `hi`, each before
/// the next in the sense of `comes_before`.
pub open spec fn is_ordered(
    records: Seq<EntryView>,
    by: SortBy,
    order: Seq<int>,
    lo: int,
    hi: int,
) -> bool {
    &&& forall|i: int| 0 <= i < order.len() ==> lo <= #[trigger] order[i] < hi
    &&& forall|i: int, j: int|
        0 <= i < j < order.len() ==> comes_before(
            records,
            by,
            #[trigger] order[i],
            #[trigger] order[j],
        )
}

/// `after` is `before` sorted by the key, with records of level keys kept in
/// their order: there is a list of all the positions of `before`, each coming
/// before the next, that `after` follows. No position occurs twice in such a
/// list, since no position comes before itself.
pub open spec fn is_stable_sort(before: Seq<EntryView>, after: Seq<EntryView>, by: SortBy) -> bool {
    exists|order: Seq<int>|
        {
            &&& order.len() == before.len()
            &&& after.len() == before.len()
            &&& is_ordered(before, by, order, 0, before.len() as int)
            &&& forall|i: int| 0 <= i < after.len() ==> #[trigger] after[i] == before[order[i]]
        }
}

/// The order of the keys is strict: no key is below itself, and of two keys
/// at most one is below the other.
pub proof fn lemma_key_lt_asymmetric(a: EntryView, b: EntryView, by: SortBy)
    requires
        key_lt(a, b, by),
    ensures
        !key_lt(b, a, by),
{
    match by {
        SortBy::Name => lemma_bytes_lt_asymmetric(encode_utf8(a.name), encode_utf8(b.name), 0),
        SortBy::Size => {},
        SortBy::Date => lemma_bytes_lt_asymmetric(
            encode_utf8(a.modified),
            encode_utf8(b.modified),
            0,
        ),
    }
}

/// The order of the keys is transitive.
pub proof fn lemma_key_lt_transitive(a: EntryView, b: EntryView, c: EntryView, by: SortBy)
    requires
        key_lt(a, b, by),
        key_lt(b, c, by),
    ensures
        key_lt(a, c, by),
{
    match by {
        SortBy::Name => lemma_bytes_lt_transitive(
            encode_utf8(a.name),
            encode_utf8(b.name),
            encode_utf8(c.name),
            0,
        ),
        SortBy::Size => {},
        SortBy::Date => lemma_bytes_lt_transitive(
            encode_utf8(a.modified),
            encode_utf8(b.modified),
            encode_utf8(c.modified),
            0,
        ),
    }
}

/// Two records of which neither key is below the other stand alike to every
/// third record.
pub proof fn lemma_key_level(a: EntryView, b: EntryView, c: EntryView, by: SortBy)
    requires
        !key_lt(a, b, by),
        !key_lt(b, a, by),
    ensures
        key_lt(a, c, by) == key_lt(b, c, by),
        key_lt(c, a, by) == key_lt(c, b, by),
{
    match by {
        SortBy::Name => {
            let x = encode_utf8(a.name);
            let y = encode_utf8(b.name);
            assert(x.subrange(0, 0) =~= y.subrange(0, 0));
            lemma_bytes_lt_total(x, y, 0);
        },
        SortBy::Size => {},
        SortBy::Date => {
            let x = encode_utf8(a.modified);
            let y = encode_utf8(b.modified);
            assert(x.subrange(0, 0) =~= y.subrange(0, 0));
            lemma_bytes_lt_total(x, y, 0);
        },
    }
}

/// Of two different positions one comes before the other.
pub proof fn lemma_comes_before_total(records: Seq<EntryView>, by: SortBy, x: int, y: int)
    requires
        x != y,
        !comes_before(records, by, x, y),
    ensures
        comes_before(records, by, y, x),
{
}

/// `comes_before` is transitive.
pub proof fn lemma_comes_before_transitive(
    records: Seq<EntryView>,
    by: SortBy,
    x: int,
    y: int,
    z: int,
)
    requires
        comes_before(records, by, x, y),
        comes_before(records, by, y, z),
    ensures
        comes_before(records, by, x, z),
{
    let a = records[x];
    let b = records[y];
    let c = records[z];
    if key_lt(a, b, by) {
        lemma_key_lt_asymmetric(a, b, by);
        if key_lt(b, c, by) {
            lemma_key_lt_transitive(a, b, c, by);
        } else {
            lemma_key_level(b, c, a, by);
        }
    } else {
        lemma_key_level(a, b, c, by);
        if key_lt(b, c, by) {
        } else {
            lemma_key_level(b, c, a, by);
        }
    }
}

/// A list that follows a stable order is in non-decreasing order of the key.
pub proof fn lemma_stable_sort_is_sorted(before: Seq<EntryView>, after: Seq<EntryView>, by: SortBy)
    requires
        is_stable_sort(before, after, by),
    ensures
        is_sorted(after, by),
{
    let order = choose|order: Seq<int>|
        {
            &&& order.len() == before.len()
            &&& after.len() == before.len()
            &&& is_ordered(before, by, order, 0, before.len() as int)
            &&& forall|i: int| 0 <= i < after.len() ==> #[trigger] after[i] == before[order[i]]
        };
    assert forall|i: int, j: int| 0 <= i < j < after.len() implies !key_lt(
        #[trigger] after[j],
        #[trigger] after[i],
        by,
    ) by {
        assert(comes_before(before, by, order[i], order[j]));
        if key_lt(after[i], after[j], by) {
            lemma_key_lt_asymmetric(after[i], after[j], by);
        }
    }
}

/// The positions of a list of indices.
pub open spec fn positions(order: Seq<usize>) -> Seq<int> {
    order.map_values(|x: usize| x as int)
}

fn entry_lt(a: &FileEntry, b: &FileEntry, by: SortBy) -> (out: bool)
    ensures
        out == key_lt(a@, b@, by),
{
    match by {
        SortBy::Name => str_lt(a.name.as_str(), b.name.as_str()),
        SortBy::Size => a.len_bytes < b.len_bytes,
        SortBy::Date => str_lt(a.modified.as_str(), b.modified.as_str()),
    }
}

fn index_before(entries: &Vec<FileEntry>, by: SortBy, x: usize, y: usize) -> (out: bool)
    requires
        x < entries.len(),
        y < entries.len(),
    ensures
        out == comes_before(entry_views(entries@), by, x as int, y as int),
{
    entry_lt(&entries[x], &entries[y], by) || (!entry_lt(&entries[y], &entries[x], by) && x < y)
}

fn merge(
    entries: &Vec<FileEntry>,
    by: SortBy,
    left: &Vec<usize>,
    right: &Vec<usize>,
    Ghost(lo): Ghost<int>,
    Ghost(mid): Ghost<int>,
    Ghost(hi): Ghost<int>,
) -> (out: Vec<usize>)
    requires
        0 <= lo <= mid <= hi <= entries.len(),
        is_ordered(entry_views(entries@), by, positions(left@), lo, mid),
        is_ordered(entry_views(entries@), by, positions(right@), mid, hi),
        left.len() + right.len() <= usize::MAX,
    ensures
        out.len() == left.len() + right.len(),
        is_ordered(entry_views(entries@), by, positions(out@), lo, hi),
{
    let ghost records = entry_views(entries@);
    let mut out: Vec<usize> = Vec::new();
    let mut i: usize = 0;
    let mut j: usize = 0;
    while i < left.len() || j < right.len()
        invariant
            i <= left.len(),
            j <= right.len(),
            out.len() == i + j,
            0 <= lo <= mid <= hi <= entries.len(),
            records == entry_views(entries@),
            left.len() + right.len() <= usize::MAX,
            is_ordered(records, by, positions(left@), lo, mid),
            is_ordered(records, by, positions(right@), mid, hi),
            is_ordered(records, by, positions(out@), lo, hi),
            forall|a: int, b: int|
                0 <= a < out.len() && i <= b < left.len() ==> comes_before(
                    records,
                    by,
                    #[trigger] positions(out@)[a],
                    #[trigger] positions(left@)[b],
                ),
            forall|a: int, b: int|
                0 <= a < out.len() && j <= b < right.len() ==> comes_before(
                    records,
                    by,
                    #[trigger] positions(out@)[a],
                    #[trigger] positions(right@)[b],
                ),
        decreases left.len() - i + right.len() - j,
    {
        let ghost done = positions(out@);
        let take_left = if j >= right.len() {
            true
        } else if i >= left.len() {
            false
        } else {
            assert(lo <= positions(left@)[i as int] < mid);
            assert(mid <= positions(right@)[j as int] < hi);
            !index_before(entries, by, right[j], left[i])
        };
        if take_left {
            let x = left[i];
            assert(lo <= positions(left@)[i as int] < mid);
            proof {
                assert forall|b: int| j <= b < right.len() implies comes_before(
                    records,
                    by,
                    x as int,
                    #[trigger] positions(right@)[b],
                ) by {
                    let r = positions(right@)[j as int];
                    assert(mid <= r < hi);
                    lemma_comes_before_total(records, by, r, x as int);
                    if b > j {
                        assert(comes_before(records, by, r, positions(right@)[b]));
                        lemma_comes_before_transitive(
                            records,
                            by,
                            x as int,
                            r,
                            positions(right@)[b],
                        );
                    }
                }
                assert forall|b: int| i + 1 <= b < left.len() implies comes_before(
                    records,
                    by,
                    x as int,
                    #[trigger] positions(left@)[b],
                ) by {
                    assert(comes_before(
                        records,
                        by,
                        positions(left@)[i as int],
                        positions(left@)[b],
                    ));
                }
            }
            out.push(x);
            i += 1;
            assert(positions(out@) =~= done.push(x as int));
        } else {
            let y = right[j];
            assert(mid <= positions(right@)[j as int] < hi);
            proof {
                assert forall|b: int| i <= b < left.len() implies comes_before(
                    records,
                    by,
                    y as int,
                    #[trigger] positions(left@)[b],
                ) by {
                    let l = positions(left@)[i as int];
                    assert(lo <= l < mid);
                    if b > i {
                        assert(comes_before(records, by, l, positions(left@)[b]));
                        lemma_comes_before_transitive(
                            records,
                            by,
                            y as int,
                            l,
                            positions(left@)[b],
                        );
                    }
                }
                assert forall|b: int| j + 1 <= b < right.len() implies comes_before(
                    records,
                    by,
                    y as int,
                    #[trigger] positions(right@)[b],
                ) by {
                    assert(comes_before(
                        records,
                        by,
                        positions(right@)[j as int],
                        positions(right@)[b],
                    ));
                }
            }
            out.push(y);
            j += 1;
            assert(positions(out@) =~= done.push(y as int));
        }
    }
    out
}

fn sort_range(entries: &Vec<FileEntry>, by: SortBy, lo: usize, hi: usize) -> (out: Vec<usize>)
    requires
        lo <= hi <= entries.len(),
    ensures
        out.len() == hi - lo,
        is_ordered(entry_views(entries@), by, positions(out@), lo as int, hi as int),
    decreases hi - lo,
{
    if hi - lo == 0 {
        Vec::new()
    } else if hi - lo == 1 {
        let mut out: Vec<usize> = Vec::new();
        out.push(lo);
        out
    } else {
        let mid: usize = lo + (hi - lo) / 2;
        let left = sort_range(entries, by, lo, mid);
        let right = sort_range(entries, by, mid, hi);
        merge(entries, by, &left, &right, Ghost(lo as int), Ghost(mid as int), Ghost(hi as int))
    }
}

/// Sorts the records by the key. The sort is stable: records of level keys
/// keep their order.
pub fn sort_entries(entries: &mut Vec<FileEntry>, by: SortBy)
    ensures
        is_stable_sort(entry_views(old(entries)@), entry_views(final(entries)@), by),
        is_sorted(entry_views(final(entries)@), by),
{
    let order = sort_range(entries, by, 0, entries.len());
    let ghost before = entry_views(entries@);
    let mut sorted: Vec<FileEntry> = Vec::new();
    let mut k: usize = 0;
    while k < order.len()
        invariant
            k <= order.len(),
            order.len() == entries.len(),
            before == entry_views(entries@),
            is_ordered(before, by, positions(order@), 0, entries.len() as int),
            sorted.len() == k,
            forall|i: int|
                0 <= i < k ==> #[trigger] entry_views(sorted@)[i] == before[positions(order@)[i]],
        decreases order.len() - k,
    {
        let ghost done = entry_views(sorted@);
        assert(0 <= positions(order@)[k as int] < entries.len());
        let copy = entries[order[k]].duplicate();
        sorted.push(copy);
        assert(entry_views(sorted@) =~= done.push(copy@));
        k += 1;
    }
    *entries = sorted;
    proof {
        let witness = positions(order@);
        let after = entry_views(entries@);
        assert(witness.len() == before.len());
        assert(after.len() == before.len());
        assert(forall|i: int| 0 <= i < after.len() ==> #[trigger] after[i] == before[witness[i]]);
        assert(is_stable_sort(before, after, by));
        lemma_stable_sort_is_sorted(before, after, by);
    }
}

/// A stable order names every position, and none twice.
pub proof fn lemma_order_is_permutation(records: Seq<EntryView>, by: SortBy, order: Seq<int>)
    requires
        order.len() == records.len(),
        is_ordered(records, by, order, 0, records.len() as int),
    ensures
        order.no_duplicates(),
        forall|p: int| 0 <= p < records.len() ==> order.contains(p),
{
    let n = records.len() as int;
    assert forall|i: int, j: int| 0 <= i < order.len() && 0 <= j < order.len() && i != j implies order[i]
        != order[j] by {
        let x = if i < j {
            order[i]
        } else {
            order[j]
        };
        let y = if i < j {
            order[j]
        } else {
            order[i]
        };
        assert(comes_before(records, by, x, y));
        if x == y && key_lt(records[x], records[x], by) {
            lemma_key_lt_asymmetric(records[x], records[x], by);
        }
    }
    order.unique_seq_to_set();
    lemma_int_range(0, n);
    seq_to_set_is_finite(order);
    assert(order.to_set().subset_of(set_int_range(0, n))) by {
        assert forall|p: int| order.to_set().contains(p) implies set_int_range(0, n).contains(
            p,
        ) by {
            let i = choose|i: int| 0 <= i < order.len() && order[i] == p;
            assert(0 <= order[i] < n);
        }
    }
    lemma_subset_equality(order.to_set(), set_int_range(0, n));
    assert forall|p: int| 0 <= p < n implies order.contains(p) by {
        assert(set_int_range(0, n).contains(p));
        assert(order.to_set().contains(p));
    }
}

/// Sorting neither drops nor adds a record: the sorted list is as long as
/// the list before, and each holds every record of the other.
pub proof fn lemma_stable_sort_keeps_records(
    before: Seq<EntryView>,
    after: Seq<EntryView>,
    by: SortBy,
)
    requires
        is_stable_sort(before, after, by),
    ensures
        after.len() == before.len(),
        forall|i: int| 0 <= i < before.len() ==> after.contains(#[trigger] before[i]),
        forall|i: int| 0 <= i < after.len() ==> before.contains(#[trigger] after[i]),
{
    let order = choose|order: Seq<int>|
        {
            &&& order.len() == before.len()
            &&& after.len() == before.len()
            &&& is_ordered(before, by, order, 0, before.len() as int)
            &&& forall|i: int| 0 <= i < after.len() ==> #[trigger] after[i] == before[order[i]]
        };
    lemma_order_is_permutation(before, by, order);
    assert forall|i: int| 0 <= i < before.len() implies after.contains(#[trigger] before[i]) by {
        assert(order.contains(i));
        let k = choose|k: int| 0 <= k < order.len() && order[k] == i;
        assert(after[k] == before[i]);
    }
    assert forall|i: int| 0 <= i < after.len() implies before.contains(#[trigger] after[i]) by {
        assert(0 <= order[i] < before.len());
        assert(before[order[i]] == after[i]);
    }
}

/// No position comes before itself, and of two positions at most one comes
/// before the other.
pub proof fn lemma_comes_before_asymmetric(records: Seq<EntryView>, by: SortBy, x: int, y: int)
    requires
        comes_before(records, by, x, y),
    ensures
        !comes_before(records, by, y, x),
{
    if key_lt(records[x], records[y], by) {
        lemma_key_lt_asymmetric(records[x], records[y], by);
    }
}

proof fn lemma_orders_agree(
    records: Seq<EntryView>,
    by: SortBy,
    first: Seq<int>,
    second: Seq<int>,
    k: int,
)
    requires
        first.len() == records.len(),
        second.len() == records.len(),
        is_ordered(records, by, first, 0, records.len() as int),
        is_ordered(records, by, second, 0, records.len() as int),
        0 <= k <= records.len(),
    ensures
        forall|i: int| 0 <= i < k ==> first[i] == second[i],
    decreases k,
{
    if k > 0 {
        lemma_orders_agree(records, by, first, second, k - 1);
        let a = first[k - 1];
        let b = second[k - 1];
        if a != b {
            lemma_order_is_permutation(records, by, first);
            lemma_order_is_permutation(records, by, second);
            assert(0 <= a < records.len());
            assert(0 <= b < records.len());
            // Where `a` stands in the second list, and `b` in the first.
            let j = choose|j: int| 0 <= j < second.len() && second[j] == a;
            let i = choose|i: int| 0 <= i < first.len() && first[i] == b;
            assert(second.contains(a));
            assert(first.contains(b));
            if j < k - 1 {
                assert(first[j] == second[j]);
                assert(first[j] == first[k - 1]);
            } else if i < k - 1 {
                assert(first[i] == second[i]);
                assert(second[i] == second[k - 1]);
            } else {
                assert(j > k - 1 && i > k - 1);
                assert(comes_before(records, by, second[k - 1], second[j]));
                assert(comes_before(records, by, first[k - 1], first[i]));
                lemma_comes_before_asymmetric(records, by, a, b);
            }
        }
    }
}

/// A list has one stable sort: two lists that are each a stable sort of the
/// same list are the same list.
pub proof fn lemma_stable_sort_is_unique(
    before: Seq<EntryView>,
    one: Seq<EntryView>,
    other: Seq<EntryView>,
    by: SortBy,
)
    requires
        is_stable_sort(before, one, by),
        is_stable_sort(before, other, by),
    ensures
        one == other,
{
    let first = choose|order: Seq<int>|
        {
            &&& order.len() == before.len()
            &&& one.len() == before.len()
            &&& is_ordered(before, by, order, 0, before.len() as int)
            &&& forall|i: int| 0 <= i < one.len() ==> #[trigger] one[i] == before[order[i]]
        };
    let second = choose|order: Seq<int>|
        {
            &&& order.len() == before.len()
            &&& other.len() == before.len()
            &&& is_ordered(before, by, order, 0, before.len() as int)
            &&& forall|i: int| 0 <= i < other.len() ==> #[trigger] other[i] == before[order[i]]
        };
    lemma_orders_agree(before, by, first, second, before.len() as int);
    assert(one =~= other);
}

} // verus!
