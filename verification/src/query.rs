//! The query engine: filtered, sorted, paginated reads over the store.
//!
//! Filters combine with logical AND; an absent field constrains nothing.
//! Text fields are matched against the full-text index, with prefix
//! semantics for `content` and term semantics for the window fields. The
//! sort column is restricted to a fixed allow-list, the direction to
//! `asc`/`desc`; the default order is most-recently-copied first. Equal
//! sort keys fall back to ascending id, so the order of a result is
//! deterministic.

use vstd::prelude::*;
use vstd::relations::sorted_by;
use vstd::seq_lib::lemma_seq_contains;

use crate::entry::{distinct_ids, ClipboardHistory, EntryType};
use crate::store::{fts_mirrors_row, FtsRecord};
use crate::text::{matches_text, str_eq, text_match};
use crate::QueryError;

verus! {

/// The recognized filter fields. All present fields must hold at once.
pub struct FilterOptions {
    /// Exact match on the entry type.
    pub type_: Option<EntryType>,
    /// Full-text term match on the capturing window's title.
    pub window_title: Option<String>,
    /// Full-text term match on the capturing window's executable.
    pub window_exe: Option<String>,
    /// Full-text prefix match on the entry content.
    pub content: Option<String>,
}

/// A requested sort: a column name and a direction, both validated
/// against an allow-list before any data is touched.
pub struct SortOptions {
    pub column: String,
    pub order: String,
}

/// The columns a caller may sort by.
#[derive(Clone, Copy, Debug, PartialEq, Eq, Structural)]
pub enum SortColumn {
    Id,
    FirstCopiedDate,
    LastCopiedDate,
    Count,
}

/// The two sort directions.
#[derive(Clone, Copy, Debug, PartialEq, Eq, Structural)]
pub enum SortOrder {
    Asc,
    Desc,
}

/// A validated sort request.
#[derive(Clone, Copy, Debug, PartialEq, Eq, Structural)]
pub struct SortKey {
    pub column: SortColumn,
    pub order: SortOrder,
}

/// The sort-column allow-list, as a partial map from column names.
pub open spec fn column_of(c: Seq<char>) -> Option<SortColumn> {
    if c == "id"@ {
        Some(SortColumn::Id)
    } else if c == "first_copied_date"@ {
        Some(SortColumn::FirstCopiedDate)
    } else if c == "last_copied_date"@ {
        Some(SortColumn::LastCopiedDate)
    } else if c == "count"@ {
        Some(SortColumn::Count)
    } else {
        None
    }
}

/// The recognized sort directions.
pub open spec fn order_of(o: Seq<char>) -> Option<SortOrder> {
    if o == "asc"@ {
        Some(SortOrder::Asc)
    } else if o == "desc"@ {
        Some(SortOrder::Desc)
    } else {
        None
    }
}

/// The sort applied when the caller requests none: most recently copied
/// first.
pub open spec fn default_sort_key() -> SortKey {
    SortKey { column: SortColumn::LastCopiedDate, order: SortOrder::Desc }
}

/// Validates a requested sort against the allow-list. Rejected requests
/// never reach the data.
pub fn parse_sort(s: &SortOptions) -> (r: Result<SortKey, QueryError>)
    ensures
        match r {
            Ok(k) => column_of(s.column@) == Some(k.column) && order_of(s.order@) == Some(k.order),
            Err(e) => (e == QueryError::UnknownSortColumn && column_of(s.column@) is None) || (e
                == QueryError::UnknownSortOrder && column_of(s.column@) is Some && order_of(
                s.order@,
            ) is None),
        },
{
    let column = if str_eq(s.column.as_str(), "id") {
        SortColumn::Id
    } else if str_eq(s.column.as_str(), "first_copied_date") {
        SortColumn::FirstCopiedDate
    } else if str_eq(s.column.as_str(), "last_copied_date") {
        SortColumn::LastCopiedDate
    } else if str_eq(s.column.as_str(), "count") {
        SortColumn::Count
    } else {
        return Err(QueryError::UnknownSortColumn);
    };
    let order = if str_eq(s.order.as_str(), "asc") {
        SortOrder::Asc
    } else if str_eq(s.order.as_str(), "desc") {
        SortOrder::Desc
    } else {
        return Err(QueryError::UnknownSortOrder);
    };
    Ok(SortKey { column, order })
}

/// Does a row pass the filter? All present fields must hold; an absent
/// field or an empty content query constrains nothing.
pub open spec fn passes_filter(row: ClipboardHistory, f: FilterOptions) -> bool {
    &&& match f.type_ {
        Some(t) => row.type_ == t,
        None => true,
    }
    &&& match f.window_title {
        Some(q) => text_match(row.window_title@, q@, false),
        None => true,
    }
    &&& match f.window_exe {
        Some(q) => text_match(row.window_exe@, q@, false),
        None => true,
    }
    &&& match f.content {
        Some(q) => text_match(row.content@, q@, true),
        None => true,
    }
}

/// A row passes an optional filter; no filter means every row passes.
pub open spec fn passes_opt_filter(row: ClipboardHistory, f: Option<FilterOptions>) -> bool {
    match f {
        Some(f0) => passes_filter(row, f0),
        None => true,
    }
}

/// Decides `passes_filter`, reading the searchable text from the
/// full-text index record that shadows the row — exactly what the
/// consistency invariant of the store guarantees to agree with the row.
fn filter_pass(row: &ClipboardHistory, rec: &FtsRecord, f: &FilterOptions) -> (r: bool)
    requires
        fts_mirrors_row(*rec, *row),
    ensures
        r == passes_filter(*row, *f),
{
    let type_ok = match &f.type_ {
        Some(t) => *t == row.type_,
        None => true,
    };
    let title_ok = match &f.window_title {
        Some(q) => matches_text(rec.window_title.as_str(), q.as_str(), false),
        None => true,
    };
    let exe_ok = match &f.window_exe {
        Some(q) => matches_text(rec.window_exe.as_str(), q.as_str(), false),
        None => true,
    };
    let content_ok = match &f.content {
        Some(q) => matches_text(rec.content.as_str(), q.as_str(), true),
        None => true,
    };
    type_ok && title_ok && exe_ok && content_ok
}

/// The rows that pass the filter, in their stored order.
pub open spec fn filtered_rows(rows: Seq<ClipboardHistory>, f: Option<FilterOptions>) -> Seq<
    ClipboardHistory,
>
    decreases rows.len(),
{
    if rows.len() == 0 {
        Seq::<ClipboardHistory>::empty()
    } else {
        filtered_rows(rows.drop_last(), f) + if passes_opt_filter(rows.last(), f) {
            seq![rows.last()]
        } else {
            Seq::<ClipboardHistory>::empty()
        }
    }
}

/// Everything in the filtered sequence is a stored row that passes the
/// filter.
pub proof fn lemma_filtered_sound(rows: Seq<ClipboardHistory>, f: Option<FilterOptions>)
    ensures
        forall|x: ClipboardHistory| #[trigger]
            filtered_rows(rows, f).contains(x) ==> rows.contains(x) && passes_opt_filter(x, f),
    decreases rows.len(),
{
    broadcast use lemma_seq_contains;

    if rows.len() > 0 {
        lemma_filtered_sound(rows.drop_last(), f);
        assert forall|x: ClipboardHistory| #[trigger]
            filtered_rows(rows, f).contains(x) implies rows.contains(x) && passes_opt_filter(
            x,
            f,
        ) by {
            if filtered_rows(rows.drop_last(), f).contains(x) {
                assert(rows.drop_last().contains(x));
                let i = choose|i: int| 0 <= i < rows.drop_last().len() && rows.drop_last()[i] == x;
                assert(rows[i] == x);
            } else {
                assert(x == rows.last());
            }
        }
    }
}

/// Every stored row that passes the filter is in the filtered sequence.
pub proof fn lemma_filtered_complete(rows: Seq<ClipboardHistory>, f: Option<FilterOptions>)
    ensures
        forall|i: int|
            0 <= i < rows.len() && passes_opt_filter(#[trigger] rows[i], f) ==> filtered_rows(
                rows,
                f,
            ).contains(rows[i]),
    decreases rows.len(),
{
    broadcast use lemma_seq_contains;

    if rows.len() > 0 {
        lemma_filtered_complete(rows.drop_last(), f);
        assert forall|i: int|
            0 <= i < rows.len() && passes_opt_filter(#[trigger] rows[i], f) implies filtered_rows(
            rows,
            f,
        ).contains(rows[i]) by {
            let flt = filtered_rows(rows, f);
            let prev = filtered_rows(rows.drop_last(), f);
            if i == rows.len() - 1 {
                assert(flt[flt.len() - 1] == rows[i]);
            } else {
                assert(rows.drop_last()[i] == rows[i]);
                assert(prev.contains(rows[i]));
                let k = choose|k: int| 0 <= k < prev.len() && prev[k] == rows[i];
                assert(flt[k] == rows[i]);
            }
        }
    }
}

/// The sort field of a row, as an unbounded integer.
pub open spec fn sort_field(row: ClipboardHistory, col: SortColumn) -> int {
    match col {
        SortColumn::Id => row.id as int,
        SortColumn::FirstCopiedDate => row.first_copied_date as int,
        SortColumn::LastCopiedDate => row.last_copied_date as int,
        SortColumn::Count => row.count as int,
    }
}

/// The total order a validated sort request induces on rows: by the
/// requested column in the requested direction, with ties broken by
/// ascending id.
pub open spec fn entry_le(key: SortKey, a: ClipboardHistory, b: ClipboardHistory) -> bool {
    let fa = sort_field(a, key.column);
    let fb = sort_field(b, key.column);
    if fa != fb {
        if key.order == SortOrder::Asc {
            fa < fb
        } else {
            fb < fa
        }
    } else {
        a.id <= b.id
    }
}

/// `entry_le` as a relation value, for use with `sorted_by`.
pub open spec fn le_of(key: SortKey) -> spec_fn(ClipboardHistory, ClipboardHistory) -> bool {
    |a: ClipboardHistory, b: ClipboardHistory| entry_le(key, a, b)
}

/// Decides `entry_le`.
fn entry_le_x(key: SortKey, a: &ClipboardHistory, b: &ClipboardHistory) -> (r: bool)
    ensures
        r == entry_le(key, *a, *b),
{
    let fa: i64 = match key.column {
        SortColumn::Id => a.id,
        SortColumn::FirstCopiedDate => a.first_copied_date,
        SortColumn::LastCopiedDate => a.last_copied_date,
        SortColumn::Count => a.count,
    };
    let fb: i64 = match key.column {
        SortColumn::Id => b.id,
        SortColumn::FirstCopiedDate => b.first_copied_date,
        SortColumn::LastCopiedDate => b.last_copied_date,
        SortColumn::Count => b.count,
    };
    if fa != fb {
        if key.order == SortOrder::Asc {
            fa < fb
        } else {
            fb < fa
        }
    } else {
        a.id <= b.id
    }
}

/// Sorts rows by the requested order (insertion sort). The result is a
/// permutation of the input — stated as multiset equality — and is
/// sorted by the order the key induces.
fn sort_rows(v: Vec<ClipboardHistory>, key: SortKey) -> (r: Vec<ClipboardHistory>)
    ensures
        r@.to_multiset() == v@.to_multiset(),
        sorted_by(r@, le_of(key)),
{
    broadcast use vstd::seq_lib::group_to_multiset_ensures;

    let mut out: Vec<ClipboardHistory> = Vec::new();
    assert(v@.take(0) =~= Seq::<ClipboardHistory>::empty());
    assert(out@.to_multiset() =~= v@.take(0).to_multiset());
    let n = v.len();
    let mut i: usize = 0;
    while i < n
        invariant
            n == v@.len(),
            0 <= i <= n,
            out@.len() == i,
            out@.to_multiset() == v@.take(i as int).to_multiset(),
            sorted_by(out@, le_of(key)),
        decreases n - i,
    {
        let x = v[i].clone();
        let mut p: usize = 0;
        while p < out.len()
            invariant
                0 <= p <= out@.len(),
                forall|k: int| 0 <= k < p ==> entry_le(key, #[trigger] out@[k], x),
            ensures
                0 <= p <= out@.len(),
                forall|k: int| 0 <= k < p ==> entry_le(key, #[trigger] out@[k], x),
                p < out@.len() ==> !entry_le(key, out@[p as int], x),
            decreases out@.len() - p,
        {
            if !entry_le_x(key, &out[p], &x) {
                break ;
            }
            p += 1;
        }
        let ghost pre = out@;
        out.insert(p, x);
        proof {
            pre.insert_ensures(p as int, x);
            assert(out@ == pre.insert(p as int, x));
            vstd::seq_lib::to_multiset_insert(pre, p as int, x);
            assert(out@.to_multiset() == pre.to_multiset().insert(x));
            assert(v@.take(i + 1).drop_last() =~= v@.take(i as int));
            assert(v@.take(i + 1) =~= v@.take(i as int).push(x));
            vstd::seq_lib::to_multiset_build(v@.take(i as int), x);
            assert(v@.take(i + 1).to_multiset() == v@.take(i as int).to_multiset().insert(x));
            assert forall|a: int, b: int| 0 <= a < b < out@.len() implies le_of(key)(
                out@[a],
                out@[b],
            ) by {
                if b < p {
                    assert(le_of(key)(pre[a], pre[b]));
                } else if a < p && b == p {
                    assert(entry_le(key, pre[a], x));
                } else if a < p && b > p {
                    assert(le_of(key)(pre[a], pre[b - 1]));
                } else if a == p {
                    // x goes before pre[p]: the scan stopped there, so by
                    // totality of the order x precedes it, and everything
                    // after follows by sortedness of pre.
                    assert(!entry_le(key, pre[p as int], x));
                    assert(entry_le(key, x, pre[p as int]));
                    if b > p + 1 {
                        assert(le_of(key)(pre[p as int], pre[b - 1]));
                    }
                } else {
                    assert(le_of(key)(pre[a - 1], pre[b - 1]));
                }
            }
        }
        i += 1;
    }
    assert(v@.take(n as int) =~= v@);
    out
}

/// A permutation of a sequence with pairwise-distinct ids again has
/// pairwise-distinct ids.
pub proof fn lemma_perm_distinct_ids(a: Seq<ClipboardHistory>, b: Seq<ClipboardHistory>)
    requires
        a.to_multiset() == b.to_multiset(),
        distinct_ids(a),
    ensures
        distinct_ids(b),
    decreases b.len(),
{
    broadcast use vstd::seq_lib::group_to_multiset_ensures;
    broadcast use lemma_seq_contains;

    if b.len() > 0 {
        assert(b.contains(b[0]));
        assert(b.to_multiset().count(b[0]) > 0);
        assert(a.to_multiset().count(b[0]) > 0);
        assert(a.contains(b[0]));
        let k = choose|k: int| 0 <= k < a.len() && a[k] == b[0];
        assert(a.remove(k).to_multiset() =~= a.to_multiset().remove(a[k]));
        assert(b.remove(0).to_multiset() =~= b.to_multiset().remove(b[0]));
        assert(a.remove(k).to_multiset() == b.remove(0).to_multiset());
        assert forall|i: int, j: int| 0 <= i < j < a.remove(k).len() implies (
        #[trigger] a.remove(k)[i]).id != (#[trigger] a.remove(k)[j]).id by {
            a.remove_ensures(k);
        }
        lemma_perm_distinct_ids(a.remove(k), b.remove(0));
        assert forall|i: int, j: int| 0 <= i < j < b.len() implies (#[trigger] b[i]).id != (
        #[trigger] b[j]).id by {
            if i == 0 {
                // b[j] sits in the tail, which is a permutation of `a`
                // without position k; every row there has an id other
                // than a[k].id == b[0].id.
                assert(b.remove(0)[j - 1] == b[j]);
                assert(b.remove(0).contains(b[j]));
                assert(b.remove(0).to_multiset().count(b[j]) > 0);
                assert(a.remove(k).to_multiset().count(b[j]) > 0);
                assert(a.remove(k).contains(b[j]));
                let m = choose|m: int| 0 <= m < a.remove(k).len() && a.remove(k)[m] == b[j];
                a.remove_ensures(k);
                if m < k {
                    assert(a[m] == b[j]);
                } else {
                    assert(a[m + 1] == b[j]);
                }
            } else {
                assert(b.remove(0)[i - 1] == b[i]);
                assert(b.remove(0)[j - 1] == b[j]);
            }
        }
    }
}

/// Two sequences sorted by the same key, holding the same rows, with
/// pairwise-distinct ids, are the same sequence: the id tie-break makes
/// the sorted order unique.
pub proof fn lemma_sorted_unique_ids(
    x: Seq<ClipboardHistory>,
    y: Seq<ClipboardHistory>,
    key: SortKey,
)
    requires
        sorted_by(x, le_of(key)),
        sorted_by(y, le_of(key)),
        x.to_multiset() == y.to_multiset(),
        distinct_ids(x),
    ensures
        x =~= y,
    decreases x.len(),
{
    broadcast use vstd::seq_lib::group_to_multiset_ensures;
    broadcast use lemma_seq_contains;

    if x.len() == 0 || y.len() == 0 {
        assert(x.to_multiset().len() == y.to_multiset().len());
    } else {
        assert(y.contains(y[0]));
        assert(y.to_multiset().count(y[0]) > 0);
        assert(x.to_multiset().count(y[0]) > 0);
        assert(x.contains(y[0]));
        assert(x.contains(x[0]));
        assert(x.to_multiset().count(x[0]) > 0);
        assert(y.to_multiset().count(x[0]) > 0);
        assert(y.contains(x[0]));
        let i = choose|i: int| 0 <= i < x.len() && x[i] == y[0];
        let j = choose|j: int| 0 <= j < y.len() && y[j] == x[0];
        if i > 0 {
            assert(le_of(key)(x[0], x[i]));
        }
        if j > 0 {
            assert(le_of(key)(y[0], y[j]));
        }
        // Both directions of the order hold between x[0] and y[0], so the
        // tie-break forces equal ids, and distinctness forces i == 0.
        assert(entry_le(key, x[0], y[0]) && entry_le(key, y[0], x[0]));
        assert(x[i].id == x[0].id);
        assert(i == 0);
        assert(x[0] == y[0]);
        assert(x.remove(0).to_multiset() =~= x.to_multiset().remove(x[0]));
        assert(y.remove(0).to_multiset() =~= y.to_multiset().remove(y[0]));
        assert forall|a: int, b: int| 0 <= a < b < x.remove(0).len() implies le_of(key)(
            #[trigger] x.remove(0)[a],
            #[trigger] x.remove(0)[b],
        ) by {
            assert(le_of(key)(x[a + 1], x[b + 1]));
        }
        assert forall|a: int, b: int| 0 <= a < b < y.remove(0).len() implies le_of(key)(
            #[trigger] y.remove(0)[a],
            #[trigger] y.remove(0)[b],
        ) by {
            assert(le_of(key)(y[a + 1], y[b + 1]));
        }
        assert forall|a: int, b: int| 0 <= a < b < x.remove(0).len() implies (#[trigger] x.remove(
            0,
        )[a]).id != (#[trigger] x.remove(0)[b]).id by {
            assert(x[a + 1].id != x[b + 1].id);
        }
        lemma_sorted_unique_ids(x.remove(0), y.remove(0), key);
        assert forall|m: int| 0 <= m < x.len() implies x[m] == y[m] by {
            if m > 0 {
                assert(x.remove(0)[m - 1] == y.remove(0)[m - 1]);
            }
        }
    }
}

/// The rows that pass the filter, in the order the key dictates. With
/// pairwise-distinct ids this order is unique, so the whole query result
/// is a function of the store's contents and the request.
pub open spec fn is_sort_of(
    orig: Seq<ClipboardHistory>,
    s: Seq<ClipboardHistory>,
    key: SortKey,
) -> bool {
    s.to_multiset() == orig.to_multiset() && sorted_by(s, le_of(key))
}

/// The sorted permutation of a sequence of rows. Unique when ids are
/// pairwise distinct ([`lemma_sorted_unique_ids`]).
pub open spec fn sorted_of(orig: Seq<ClipboardHistory>, key: SortKey) -> Seq<ClipboardHistory> {
    choose|s: Seq<ClipboardHistory>| is_sort_of(orig, s, key)
}

/// A filtered sequence of rows with pairwise-distinct ids again has
/// pairwise-distinct ids.
pub proof fn lemma_filtered_distinct(rows: Seq<ClipboardHistory>, f: Option<FilterOptions>)
    requires
        distinct_ids(rows),
    ensures
        distinct_ids(filtered_rows(rows, f)),
    decreases rows.len(),
{
    broadcast use lemma_seq_contains;

    if rows.len() > 0 {
        assert(distinct_ids(rows.drop_last()));
        lemma_filtered_distinct(rows.drop_last(), f);
        lemma_filtered_sound(rows.drop_last(), f);
        let prev = filtered_rows(rows.drop_last(), f);
        let flt = filtered_rows(rows, f);
        if passes_opt_filter(rows.last(), f) {
            assert forall|i: int, j: int| 0 <= i < j < flt.len() implies (#[trigger] flt[i]).id != (
            #[trigger] flt[j]).id by {
                if j < prev.len() {
                    assert(prev[i] == flt[i] && prev[j] == flt[j]);
                } else {
                    assert(flt[j] == rows.last());
                    assert(prev[i] == flt[i]);
                    assert(prev.contains(prev[i]));
                    assert(rows.drop_last().contains(prev[i]));
                    let m = choose|m: int|
                        0 <= m < rows.drop_last().len() && rows.drop_last()[m] == prev[i];
                    assert(rows[m] == prev[i]);
                    assert(rows[m].id != rows.last().id);
                }
            }
        } else {
            assert(flt =~= prev);
        }
    }
}

/// The server-side cap on a requested page size.
pub const MAX_LIMIT: i64 = 200;

/// The page size used when the caller requests none.
pub const DEFAULT_LIMIT: i64 = 20;

/// The filter a caller passed by reference, as a value.
pub open spec fn filter_val(f: Option<&FilterOptions>) -> Option<FilterOptions> {
    match f {
        Some(f0) => Some(*f0),
        None => None,
    }
}

/// The sort key a request resolves to: the default when absent, the
/// validated key when recognized, the exact error otherwise.
pub open spec fn spec_sort_key(sort: Option<&SortOptions>) -> Result<SortKey, QueryError> {
    match sort {
        None => Ok(default_sort_key()),
        Some(s) => match column_of(s.column@) {
            None => Err(QueryError::UnknownSortColumn),
            Some(c) => match order_of(s.order@) {
                None => Err(QueryError::UnknownSortOrder),
                Some(o) => Ok(SortKey { column: c, order: o }),
            },
        },
    }
}

/// The effective offset and limit of a request: defaults applied, the
/// limit capped, negatives rejected.
pub open spec fn spec_pagination(offset: Option<i64>, limit: Option<i64>) -> Result<
    (int, int),
    QueryError,
> {
    let off = match offset {
        Some(o) => o as int,
        None => 0,
    };
    let lim = match limit {
        Some(l) => l as int,
        None => DEFAULT_LIMIT as int,
    };
    if off < 0 || lim < 0 {
        Err(QueryError::InvalidPagination)
    } else {
        Ok((off, if lim > MAX_LIMIT as int {
            MAX_LIMIT as int
        } else {
            lim
        }))
    }
}

/// `i`, clipped to the range `[0, n]`.
pub open spec fn clip_to(i: int, n: int) -> int {
    if i <= n {
        i
    } else {
        n
    }
}

/// Runs a query over the primary rows and the index records that shadow
/// them: filter, sort, paginate. Read-only.
///
/// On success the result is exactly one page of the sorted filtered
/// rows: the rows passing the filter, in the unique order the key
/// dictates, from the effective offset on, at most the effective limit
/// of them.
#[verifier::rlimit(50)]
pub fn run_query(
    rows: &Vec<ClipboardHistory>,
    fts: &Vec<FtsRecord>,
    filter: Option<&FilterOptions>,
    sort: Option<&SortOptions>,
    offset: Option<i64>,
    limit: Option<i64>,
) -> (r: Result<Vec<ClipboardHistory>, QueryError>)
    requires
        rows@.len() == fts@.len(),
        forall|i: int| 0 <= i < rows@.len() ==> fts_mirrors_row(fts@[i], #[trigger] rows@[i]),
        distinct_ids(rows@),
        rows@.len() <= i64::MAX,
    ensures
        spec_sort_key(sort) matches Err(e) ==> r == Err::<Vec<ClipboardHistory>, QueryError>(e),
        spec_sort_key(sort) is Ok ==> (spec_pagination(offset, limit) matches Err(e) ==> r == Err::<
            Vec<ClipboardHistory>,
            QueryError,
        >(e)),
        spec_sort_key(sort) is Ok && spec_pagination(offset, limit) is Ok ==> {
            let key = spec_sort_key(sort)->Ok_0;
            let off = spec_pagination(offset, limit)->Ok_0.0;
            let lim = spec_pagination(offset, limit)->Ok_0.1;
            let flt = filtered_rows(rows@, filter_val(filter));
            let srt = sorted_of(flt, key);
            &&& r is Ok
            &&& is_sort_of(flt, srt, key)
            &&& r->Ok_0@ == srt.subrange(
                clip_to(off, srt.len() as int),
                clip_to(off + lim, srt.len() as int),
            )
            &&& forall|k: int| 0 <= k < r->Ok_0@.len() ==> flt.contains(#[trigger] r->Ok_0@[k])
        },
{
    let key: SortKey = match sort {
        Some(s) => match parse_sort(s) {
            Ok(k) => k,
            Err(e) => {
                return Err(e);
            },
        },
        None => SortKey { column: SortColumn::LastCopiedDate, order: SortOrder::Desc },
    };
    assert(spec_sort_key(sort) == Ok::<SortKey, QueryError>(key));
    let off: i64 = match offset {
        Some(o) => o,
        None => 0,
    };
    let lim0: i64 = match limit {
        Some(l) => l,
        None => DEFAULT_LIMIT,
    };
    if off < 0 || lim0 < 0 {
        return Err(QueryError::InvalidPagination);
    }
    let lim: i64 = if lim0 > MAX_LIMIT {
        MAX_LIMIT
    } else {
        lim0
    };
    let ghost fv = filter_val(filter);

    let mut flt: Vec<ClipboardHistory> = Vec::new();
    let n = rows.len();
    let mut i: usize = 0;
    assert(rows@.take(0) =~= Seq::<ClipboardHistory>::empty());
    while i < n
        invariant
            n == rows@.len(),
            rows@.len() == fts@.len(),
            forall|i0: int| 0 <= i0 < rows@.len() ==> fts_mirrors_row(fts@[i0], #[trigger] rows@[i0]),
            0 <= i <= n,
            flt@.len() <= i,
            fv == filter_val(filter),
            flt@ == filtered_rows(rows@.take(i as int), fv),
        decreases n - i,
    {
        let pass = match filter {
            Some(f) => filter_pass(&rows[i], &fts[i], f),
            None => true,
        };
        proof {
            assert(rows@.take(i + 1).drop_last() =~= rows@.take(i as int));
            assert(rows@.take(i + 1).last() == rows@[i as int]);
        }
        assert(pass == passes_opt_filter(rows@[i as int], fv));
        if pass {
            flt.push(rows[i].clone());
            assert(filtered_rows(rows@.take(i + 1), fv) == filtered_rows(rows@.take(i as int), fv)
                + seq![rows@[i as int]]);
            assert(flt@ =~= filtered_rows(rows@.take(i + 1), fv));
        } else {
            assert(filtered_rows(rows@.take(i + 1), fv) == filtered_rows(rows@.take(i as int), fv)
                + Seq::<ClipboardHistory>::empty());
            assert(flt@ =~= filtered_rows(rows@.take(i + 1), fv));
        }
        i += 1;
    }
    assert(rows@.take(n as int) =~= rows@);
    let ghost flt_seq = flt@;
    proof {
        lemma_filtered_distinct(rows@, fv);
    }

    let sorted = sort_rows(flt, key);
    proof {
        broadcast use vstd::seq_lib::group_to_multiset_ensures;

        assert(is_sort_of(flt_seq, sorted@, key));
        lemma_perm_distinct_ids(flt_seq, sorted@);
        assert(exists|s: Seq<ClipboardHistory>| is_sort_of(flt_seq, s, key));
        let s0 = sorted_of(flt_seq, key);
        assert(is_sort_of(flt_seq, s0, key));
        lemma_sorted_unique_ids(sorted@, s0, key);
        assert(sorted@ =~= s0);
        assert(sorted@.to_multiset().len() == sorted@.len());
        assert(flt_seq.to_multiset().len() == flt_seq.len());
        assert(sorted@.len() == flt_seq.len());
    }

    let total = sorted.len();
    let total_i: i64 = total as i64;
    let start: usize = if off >= total_i {
        total
    } else {
        off as usize
    };
    let remaining: usize = total - start;
    let rem_i: i64 = remaining as i64;
    let take_n: usize = if lim >= rem_i {
        remaining
    } else {
        lim as usize
    };
    let end: usize = start + take_n;
    assert(start as int == clip_to(off as int, sorted@.len() as int));
    assert(end as int == clip_to(off as int + lim as int, sorted@.len() as int));

    let mut page: Vec<ClipboardHistory> = Vec::new();
    let mut k: usize = start;
    assert(page@ =~= sorted@.subrange(start as int, start as int));
    while k < end
        invariant
            start <= k <= end <= sorted@.len(),
            page@ == sorted@.subrange(start as int, k as int),
        decreases end - k,
    {
        page.push(sorted[k].clone());
        assert(page@ =~= sorted@.subrange(start as int, (k + 1) as int));
        k += 1;
    }

    proof {
        broadcast use vstd::seq_lib::group_to_multiset_ensures;
        broadcast use lemma_seq_contains;

        assert forall|k0: int| 0 <= k0 < page@.len() implies flt_seq.contains(
            #[trigger] page@[k0],
        ) by {
            assert(page@[k0] == sorted@[start + k0]);
            assert(sorted@.contains(sorted@[start + k0]));
            assert(sorted@.to_multiset().count(sorted@[start + k0]) > 0);
            assert(flt_seq.to_multiset().count(sorted@[start + k0]) > 0);
        }
    }
    Ok(page)
}

} // verus!
