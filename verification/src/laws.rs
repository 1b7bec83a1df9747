//! The laws of the store and the query engine: what holds across calls.
//!
//! Each proof function here states a property of the transition
//! predicates that the store's methods ensure, so it applies to every
//! actual call sequence. The store's mutations are atomic — they take
//! the store exclusively — so any concurrent execution is one of the
//! serial orders these laws quantify over.

use vstd::prelude::*;
use vstd::seq_lib::lemma_seq_contains;

use crate::entry::{distinct_ids, matches_identity, ClipboardHistory, EntryDraft, EntryType};
use crate::query::{
    clip_to, filtered_rows, is_sort_of, lemma_filtered_complete, lemma_filtered_sound,
    lemma_perm_distinct_ids, lemma_sorted_unique_ids, passes_filter, FilterOptions, SortKey,
};
use crate::store::{
    bumped_row, delete_transition, first_id_index, first_identity_index, has_id, has_identity,
    is_fresh_row, lemma_first_id_index, lemma_first_identity_index, unique_identity,
    update_content_transition, upsert_transition, HistoryStore,
};
use crate::StorageError;

verus! {

/// A capture of an identity the store does not hold creates exactly one
/// row for it: count one, both timestamps at the capture time, the next
/// free id, everything already stored untouched.
pub proof fn lemma_fresh_capture(
    pre: HistoryStore,
    post: HistoryStore,
    d: EntryDraft,
    now: i64,
    r: Result<i64, StorageError>,
)
    requires
        d.wf(),
        !has_identity(pre.rows_view(), d.type_, d.identity()),
        pre.next_id_view() < i64::MAX,
        upsert_transition(pre, post, d, now, r),
    ensures
        r == Ok::<i64, StorageError>(pre.next_id_view()),
        post.rows_view().len() == pre.rows_view().len() + 1,
        has_identity(post.rows_view(), d.type_, d.identity()),
        unique_identity(post.rows_view(), d.type_, d.identity()),
        first_identity_index(post.rows_view(), d.type_, d.identity()) == pre.rows_view().len(),
        post.rows_view().last().count == 1,
        post.rows_view().last().first_copied_date == now,
        post.rows_view().last().last_copied_date == now,
        post.rows_view().last().id == pre.next_id_view(),
        forall|j: int|
            0 <= j < pre.rows_view().len() ==> post.rows_view()[j] == pre.rows_view()[j],
{
    let rows0 = pre.rows_view();
    let rows1 = post.rows_view();
    let n = rows0.len() as int;
    let last = rows1.last();
    assert(is_fresh_row(last, d, pre.next_id_view(), now));
    assert(matches_identity(last, d.type_, d.identity()));
    assert(rows1[n] == last);
    assert(has_identity(rows1, d.type_, d.identity()));
    assert forall|i: int, j: int|
        0 <= i < rows1.len() && 0 <= j < rows1.len() && matches_identity(rows1[i], d.type_, d.identity())
            && matches_identity(rows1[j], d.type_, d.identity()) implies i == j by {
        if i < n {
            assert(rows1[i] == rows0[i]);
            assert(has_identity(rows0, d.type_, d.identity()));
        }
        if j < n {
            assert(rows1[j] == rows0[j]);
            assert(has_identity(rows0, d.type_, d.identity()));
        }
    }
    lemma_first_identity_index(rows1, d.type_, d.identity());
    let k = first_identity_index(rows1, d.type_, d.identity());
    assert(k == n);
}

/// A repeat capture of a stored identity bumps exactly that row: its
/// count grows by one, its last-copied time becomes the capture time,
/// its first-copied time and every other row stay as they were, and no
/// index record changes.
pub proof fn lemma_repeat_capture(
    pre: HistoryStore,
    post: HistoryStore,
    d: EntryDraft,
    now: i64,
    r: Result<i64, StorageError>,
)
    requires
        d.wf(),
        has_identity(pre.rows_view(), d.type_, d.identity()),
        unique_identity(pre.rows_view(), d.type_, d.identity()),
        upsert_transition(pre, post, d, now, r),
    ensures
        ({
            let k = first_identity_index(pre.rows_view(), d.type_, d.identity());
            &&& r == Ok::<i64, StorageError>(pre.rows_view()[k].id)
            &&& post.rows_view().len() == pre.rows_view().len()
            &&& has_identity(post.rows_view(), d.type_, d.identity())
            &&& unique_identity(post.rows_view(), d.type_, d.identity())
            &&& first_identity_index(post.rows_view(), d.type_, d.identity()) == k
            &&& post.rows_view()[k].count == (if pre.rows_view()[k].count < i64::MAX {
                pre.rows_view()[k].count + 1
            } else {
                pre.rows_view()[k].count as int
            })
            &&& post.rows_view()[k].first_copied_date == pre.rows_view()[k].first_copied_date
            &&& post.rows_view()[k].last_copied_date == now
            &&& forall|j: int|
                0 <= j < pre.rows_view().len() && j != k ==> post.rows_view()[j]
                    == pre.rows_view()[j]
            &&& post.fts_view() == pre.fts_view()
        }),
{
    let rows0 = pre.rows_view();
    let rows1 = post.rows_view();
    lemma_first_identity_index(rows0, d.type_, d.identity());
    let k = first_identity_index(rows0, d.type_, d.identity());
    assert(rows1 == rows0.update(k, bumped_row(rows0[k], now)));
    assert(matches_identity(rows1[k], d.type_, d.identity()));
    assert(has_identity(rows1, d.type_, d.identity()));
    assert forall|i: int, j: int|
        0 <= i < rows1.len() && 0 <= j < rows1.len() && matches_identity(rows1[i], d.type_, d.identity())
            && matches_identity(rows1[j], d.type_, d.identity()) implies i == j by {
        if i != k {
            assert(rows1[i] == rows0[i]);
        }
        if j != k {
            assert(rows1[j] == rows0[j]);
        }
    }
    lemma_first_identity_index(rows1, d.type_, d.identity());
    let k1 = first_identity_index(rows1, d.type_, d.identity());
    if k1 < k {
        assert(rows1[k1] == rows0[k1]);
    }
    assert(k1 == k);
}

/// Dedup idempotence: capturing one identity N times, starting from a
/// store that does not hold it, leaves exactly one row for it, with a
/// count of N, the first capture's time as its first-copied time, and
/// the last capture's time as its last-copied time.
pub proof fn lemma_dedup_idempotence(
    ss: Seq<HistoryStore>,
    d: EntryDraft,
    ts: Seq<i64>,
    rs: Seq<Result<i64, StorageError>>,
)
    requires
        d.wf(),
        1 <= ts.len() <= i64::MAX,
        ss.len() == ts.len() + 1,
        rs.len() == ts.len(),
        !has_identity(ss[0].rows_view(), d.type_, d.identity()),
        ss[0].next_id_view() < i64::MAX,
        forall|i: int|
            0 <= i < ts.len() ==> upsert_transition(
                #[trigger] ss[i],
                ss[i + 1],
                d,
                ts[i],
                rs[i],
            ),
    ensures
        ({
            let fin = ss.last().rows_view();
            let k = first_identity_index(fin, d.type_, d.identity());
            &&& has_identity(fin, d.type_, d.identity())
            &&& unique_identity(fin, d.type_, d.identity())
            &&& fin.len() == ss[0].rows_view().len() + 1
            &&& fin[k].count == ts.len()
            &&& fin[k].first_copied_date == ts[0]
            &&& fin[k].last_copied_date == ts.last()
        }),
    decreases ts.len(),
{
    let n = ts.len() as int;
    if n == 1 {
        lemma_fresh_capture(ss[0], ss[1], d, ts[0], rs[0]);
        let fin = ss[1].rows_view();
        lemma_first_identity_index(fin, d.type_, d.identity());
        assert(ss.last() == ss[1]);
    } else {
        let ssp = ss.drop_last();
        let tsp = ts.drop_last();
        let rsp = rs.drop_last();
        assert(ssp[0] == ss[0]);
        assert forall|i: int| 0 <= i < tsp.len() implies upsert_transition(
            #[trigger] ssp[i],
            ssp[i + 1],
            d,
            tsp[i],
            rsp[i],
        ) by {
            assert(ssp[i] == ss[i] && ssp[i + 1] == ss[i + 1]);
            assert(tsp[i] == ts[i] && rsp[i] == rs[i]);
        }
        lemma_dedup_idempotence(ssp, d, tsp, rsp);
        let mid = ssp.last();
        assert(mid == ss[n - 1]);
        let midrows = mid.rows_view();
        let k = first_identity_index(midrows, d.type_, d.identity());
        assert(midrows[k].count == n - 1);
        assert(upsert_transition(ss[n - 1], ss[n], d, ts[n - 1], rs[n - 1]));
        lemma_repeat_capture(ss[n - 1], ss[n], d, ts[n - 1], rs[n - 1]);
        assert(ss.last() == ss[n]);
        assert(tsp[0] == ts[0]);
        assert(ts.last() == ts[n - 1]);
    }
}

/// Concurrent upsert race, serialized: two upserts of one identity,
/// from a store that does not hold it, leave exactly one row with a
/// count of two — never two rows, never a count of one — and both calls
/// return the same id. The store takes each upsert exclusively, so every
/// interleaving of two racing calls is one of these serial orders.
pub proof fn lemma_concurrent_upsert_race(
    s0: HistoryStore,
    s1: HistoryStore,
    s2: HistoryStore,
    d: EntryDraft,
    t1: i64,
    t2: i64,
    r1: Result<i64, StorageError>,
    r2: Result<i64, StorageError>,
)
    requires
        d.wf(),
        !has_identity(s0.rows_view(), d.type_, d.identity()),
        s0.next_id_view() < i64::MAX,
        upsert_transition(s0, s1, d, t1, r1),
        upsert_transition(s1, s2, d, t2, r2),
    ensures
        ({
            let fin = s2.rows_view();
            let k = first_identity_index(fin, d.type_, d.identity());
            &&& fin.len() == s0.rows_view().len() + 1
            &&& has_identity(fin, d.type_, d.identity())
            &&& unique_identity(fin, d.type_, d.identity())
            &&& fin[k].count == 2
            &&& r1 == Ok::<i64, StorageError>(s0.next_id_view())
            &&& r2 == Ok::<i64, StorageError>(s0.next_id_view())
        }),
{
    lemma_fresh_capture(s0, s1, d, t1, r1);
    lemma_repeat_capture(s1, s2, d, t2, r2);
}

/// Identity partition: the same text captured as a text entry and as an
/// html entry makes two distinct rows — the type is part of the
/// identity.
pub proof fn lemma_identity_partition(
    s0: HistoryStore,
    s1: HistoryStore,
    s2: HistoryStore,
    d1: EntryDraft,
    d2: EntryDraft,
    t1: i64,
    t2: i64,
    r1: Result<i64, StorageError>,
    r2: Result<i64, StorageError>,
)
    requires
        d1.wf(),
        d2.wf(),
        d1.type_ == EntryType::Text,
        d2.type_ == EntryType::Html,
        d1.content@ == d2.content@,
        !has_identity(s0.rows_view(), d1.type_, d1.identity()),
        !has_identity(s0.rows_view(), d2.type_, d2.identity()),
        s0.next_id_view() < i64::MAX - 1,
        upsert_transition(s0, s1, d1, t1, r1),
        upsert_transition(s1, s2, d2, t2, r2),
    ensures
        ({
            let n = s0.rows_view().len() as int;
            &&& s2.rows_view().len() == n + 2
            &&& s2.rows_view()[n].type_ == EntryType::Text
            &&& s2.rows_view()[n + 1].type_ == EntryType::Html
            &&& s2.rows_view()[n].content@ == d1.content@
            &&& s2.rows_view()[n + 1].content@ == d1.content@
            &&& s2.rows_view()[n].id != s2.rows_view()[n + 1].id
        }),
{
    lemma_fresh_capture(s0, s1, d1, t1, r1);
    let n = s0.rows_view().len() as int;
    assert forall|i: int| 0 <= i < s1.rows_view().len() implies !matches_identity(
        s1.rows_view()[i],
        d2.type_,
        d2.identity(),
    ) by {
        if i < n {
            assert(s1.rows_view()[i] == s0.rows_view()[i]);
            assert(has_identity(s0.rows_view(), d2.type_, d2.identity()) ==> false);
        } else {
            assert(s1.rows_view()[i].type_ == EntryType::Text);
        }
    }
    assert(!has_identity(s1.rows_view(), d2.type_, d2.identity()));
    lemma_fresh_capture(s1, s2, d2, t2, r2);
    assert(s2.rows_view()[n] == s1.rows_view()[n]);
}

/// Deleting a row removes its id from the store entirely.
pub proof fn lemma_delete_removes_id(s0: HistoryStore, s1: HistoryStore, id: i64)
    requires
        s0.wf(),
        delete_transition(s0, s1, id),
    ensures
        !has_id(s1.rows_view(), id),
{
    let rows0 = s0.rows_view();
    let rows1 = s1.rows_view();
    if has_id(rows0, id) {
        lemma_first_id_index(rows0, id);
        let k = first_id_index(rows0, id);
        assert(rows1 == rows0.remove(k));
        assert forall|m: int| 0 <= m < rows1.len() implies rows1[m].id != id by {
            rows0.remove_ensures(k);
            if m < k {
                assert(rows1[m] == rows0[m]);
                assert(rows0[m].id < rows0[k].id);
            } else {
                assert(rows1[m] == rows0[m + 1]);
                assert(rows0[k].id < rows0[m + 1].id);
            }
        }
    }
}

/// OCR-after-delete: once an entry is deleted, a late OCR completion
/// for its id is answered with the benign `NotFound` and changes
/// neither the rows nor the index — the row is not resurrected and the
/// index stays consistent.
pub proof fn lemma_ocr_after_delete(
    s0: HistoryStore,
    s1: HistoryStore,
    s2: HistoryStore,
    id: i64,
    text: String,
    rr: Result<(), StorageError>,
)
    requires
        s0.wf(),
        delete_transition(s0, s1, id),
        update_content_transition(s1, s2, id, text, rr),
    ensures
        !has_id(s1.rows_view(), id),
        rr == Err::<(), StorageError>(StorageError::NotFound),
        s2.rows_view() == s1.rows_view(),
        s2.fts_view() == s1.fts_view(),
{
    lemma_delete_removes_id(s0, s1, id);
}

/// Index consistency, store side: every primary row has its index
/// record, mirroring exactly the searchable fields, at the same
/// position — there is no window where a reader sees one without the
/// other.
pub proof fn lemma_index_mirrors_store(s: HistoryStore)
    requires
        s.wf(),
    ensures
        s.fts_view().len() == s.rows_view().len(),
        forall|i: int|
            0 <= i < s.rows_view().len() ==> crate::store::fts_mirrors_row(
                s.fts_view()[i],
                #[trigger] s.rows_view()[i],
            ),
{
}

/// Index consistency, query side: a content query that matches a stored
/// row's content finds that row among the filtered rows.
pub proof fn lemma_content_query_finds_row(s: HistoryStore, f: FilterOptions, i: int)
    requires
        s.wf(),
        0 <= i < s.rows_view().len(),
        f.type_ is None,
        f.window_title is None,
        f.window_exe is None,
        f.content matches Some(q) && crate::text::text_match(s.rows_view()[i].content@, q@, true),
    ensures
        passes_filter(s.rows_view()[i], f),
        filtered_rows(s.rows_view(), Some(f)).contains(s.rows_view()[i]),
{
    lemma_filtered_complete(s.rows_view(), Some(f));
}

/// Index consistency, after delete: no query result can hold the
/// deleted id any more — everything a filter returns comes from the
/// remaining rows.
pub proof fn lemma_deleted_row_leaves_queries(s0: HistoryStore, s1: HistoryStore, id: i64)
    requires
        s0.wf(),
        delete_transition(s0, s1, id),
    ensures
        !has_id(s1.rows_view(), id),
        forall|f: Option<FilterOptions>, x: ClipboardHistory|
            #[trigger] filtered_rows(s1.rows_view(), f).contains(x) ==> x.id != id,
{
    lemma_delete_removes_id(s0, s1, id);
    let rows1 = s1.rows_view();
    assert forall|f: Option<FilterOptions>, x: ClipboardHistory| #[trigger]
        filtered_rows(rows1, f).contains(x) implies x.id != id by {
        lemma_filtered_sound(rows1, f);
        assert(rows1.contains(x));
        let m = choose|m: int| 0 <= m < rows1.len() && rows1[m] == x;
        assert(rows1[m].id != id);
    }
}

/// Index consistency, page side: when the first page is large enough to
/// hold every filtered row, it is the whole sorted sequence, and every
/// filtered row — in particular one found by a content query — appears
/// in it.
pub proof fn lemma_first_page_holds_all(
    flt: Seq<ClipboardHistory>,
    srt: Seq<ClipboardHistory>,
    key: SortKey,
    lim: int,
)
    requires
        is_sort_of(flt, srt, key),
        0 <= flt.len() <= lim,
    ensures
        srt.subrange(clip_to(0, srt.len() as int), clip_to(lim, srt.len() as int)) =~= srt,
        forall|x: ClipboardHistory| flt.contains(x) ==> srt.contains(x),
{
    broadcast use vstd::seq_lib::group_to_multiset_ensures;
    broadcast use lemma_seq_contains;

    assert(srt.to_multiset().len() == srt.len());
    assert(flt.to_multiset().len() == flt.len());
    assert(srt.len() == flt.len());
    assert(srt.subrange(clip_to(0, srt.len() as int), clip_to(lim, srt.len() as int)) =~= srt);
    assert forall|x: ClipboardHistory| flt.contains(x) implies srt.contains(x) by {
        assert(flt.to_multiset().count(x) > 0);
        assert(srt.to_multiset().count(x) > 0);
    }
}

/// Index consistency, end to end: a content query that matches a stored
/// row's content, read from the first page with room for every filtered
/// row, returns that row.
pub proof fn lemma_content_query_returns_row(
    s: HistoryStore,
    f: FilterOptions,
    i: int,
    srt: Seq<ClipboardHistory>,
    key: SortKey,
    lim: int,
)
    requires
        s.wf(),
        0 <= i < s.rows_view().len(),
        f.type_ is None,
        f.window_title is None,
        f.window_exe is None,
        f.content matches Some(q) && crate::text::text_match(s.rows_view()[i].content@, q@, true),
        is_sort_of(filtered_rows(s.rows_view(), Some(f)), srt, key),
        filtered_rows(s.rows_view(), Some(f)).len() <= lim,
    ensures
        srt.subrange(clip_to(0, srt.len() as int), clip_to(lim, srt.len() as int)).contains(
            s.rows_view()[i],
        ),
{
    lemma_content_query_finds_row(s, f, i);
    lemma_first_page_holds_all(filtered_rows(s.rows_view(), Some(f)), srt, key, lim);
    assert(srt.contains(s.rows_view()[i]));
}

/// Pagination determinism: two reads of consecutive pages from the same
/// filtered rows see one and the same sorted order, their pages are
/// id-disjoint, together they are exactly the first `2·l` sorted rows,
/// and when everything fits in the two pages they cover the filtered
/// rows exactly once.
pub proof fn lemma_pagination_partition(
    flt: Seq<ClipboardHistory>,
    s1: Seq<ClipboardHistory>,
    s2: Seq<ClipboardHistory>,
    key: SortKey,
    l: int,
)
    requires
        is_sort_of(flt, s1, key),
        is_sort_of(flt, s2, key),
        distinct_ids(flt),
        0 <= l,
    ensures
        s1 =~= s2,
        ({
            let n = s1.len() as int;
            let p1 = s1.subrange(clip_to(0, n), clip_to(l, n));
            let p2 = s2.subrange(clip_to(l, n), clip_to(2 * l, n));
            &&& p1 + p2 =~= s1.subrange(0, clip_to(2 * l, n))
            &&& forall|i: int, j: int|
                0 <= i < p1.len() && 0 <= j < p2.len() ==> (#[trigger] p1[i]).id != (
                #[trigger] p2[j]).id
            &&& flt.len() <= 2 * l ==> (p1 + p2).to_multiset() == flt.to_multiset()
        }),
{
    lemma_perm_distinct_ids(flt, s1);
    lemma_sorted_unique_ids(s1, s2, key);
    assert(s1 =~= s2);
    let n = s1.len() as int;
    let p1 = s1.subrange(clip_to(0, n), clip_to(l, n));
    let p2 = s2.subrange(clip_to(l, n), clip_to(2 * l, n));
    assert(p1 + p2 =~= s1.subrange(0, clip_to(2 * l, n)));
    assert forall|i: int, j: int| 0 <= i < p1.len() && 0 <= j < p2.len() implies (
    #[trigger] p1[i]).id != (#[trigger] p2[j]).id by {
        assert(p1[i] == s1[i]);
        assert(p2[j] == s1[clip_to(l, n) + j]);
    }
    if flt.len() <= 2 * l {
        broadcast use vstd::seq_lib::group_to_multiset_ensures;

        assert(s1.to_multiset().len() == s1.len());
        assert(flt.to_multiset().len() == flt.len());
        assert(s1.len() == flt.len());
        assert(p1 + p2 =~= s1);
    }
}

/// Filter AND semantics: everything a filter returns satisfies every
/// present field of it at once — an image-type filter with a content
/// query returns only image rows whose content matches the query as a
/// prefix.
pub proof fn lemma_filter_and_semantics(rows: Seq<ClipboardHistory>, f: FilterOptions)
    ensures
        forall|x: ClipboardHistory| #[trigger]
            filtered_rows(rows, Some(f)).contains(x) ==> {
                &&& (f.type_ matches Some(t) ==> x.type_ == t)
                &&& (f.window_title matches Some(q) ==> crate::text::text_match(
                    x.window_title@,
                    q@,
                    false,
                ))
                &&& (f.window_exe matches Some(q) ==> crate::text::text_match(
                    x.window_exe@,
                    q@,
                    false,
                ))
                &&& (f.content matches Some(q) ==> crate::text::text_match(x.content@, q@, true))
            },
{
    lemma_filtered_sound(rows, Some(f));
}

} // verus!
