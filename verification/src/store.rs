//! The history store: the primary table of clipboard entries together with
//! the full-text index that shadows it.
//!
//! Every mutation of a primary row updates the index record in the same
//! call, so a reader never observes one without the other: the
//! well-formedness predicate [`HistoryStore::wf`] states that the index
//! mirrors the table row for row, and every method preserves it.

use vstd::prelude::*;

use crate::entry::{distinct_ids, matches_identity, ClipboardHistory, EntryDraft, EntryType};
use crate::query::{
    clip_to, filter_val, filtered_rows, is_sort_of, run_query, sorted_of, spec_pagination,
    spec_sort_key, FilterOptions, SortOptions,
};
use crate::{QueryError, StorageError};

verus! {

/// One record of the full-text index: the searchable projection of a row,
/// keyed by the row's id.
pub struct FtsRecord {
    pub rowid: i64,
    pub content: String,
    pub window_title: String,
    pub window_exe: String,
}

/// The index record shadows the row.
pub open spec fn fts_mirrors_row(f: FtsRecord, row: ClipboardHistory) -> bool {
    &&& f.rowid == row.id
    &&& f.content@ == row.content@
    &&& f.window_title@ == row.window_title@
    &&& f.window_exe@ == row.window_exe@
}

/// The view of an optional draft field: an absent one is stored empty.
pub open spec fn opt_view(o: Option<String>) -> Seq<char> {
    match o {
        Option::Some(s) => s@,
        Option::None => Seq::<char>::empty(),
    }
}

/// Some row of `rows` carries identity `(t, ident)`.
pub open spec fn has_identity(rows: Seq<ClipboardHistory>, t: EntryType, ident: Seq<char>) -> bool {
    exists|i: int| 0 <= i < rows.len() && matches_identity(rows[i], t, ident)
}

/// At most one row of `rows` carries identity `(t, ident)`.
pub open spec fn unique_identity(
    rows: Seq<ClipboardHistory>,
    t: EntryType,
    ident: Seq<char>,
) -> bool {
    forall|i: int, j: int|
        0 <= i < rows.len() && 0 <= j < rows.len() && matches_identity(rows[i], t, ident)
            && matches_identity(rows[j], t, ident) ==> i == j
}

/// The first index of `rows` whose row carries identity `(t, ident)`.
pub open spec fn first_identity_index(
    rows: Seq<ClipboardHistory>,
    t: EntryType,
    ident: Seq<char>,
) -> int
    decreases rows.len(),
{
    if rows.len() == 0 {
        0
    } else if matches_identity(rows[0], t, ident) {
        0
    } else {
        1 + first_identity_index(rows.drop_first(), t, ident)
    }
}

/// When some row matches, `first_identity_index` names the least index
/// that does.
pub proof fn lemma_first_identity_index(rows: Seq<ClipboardHistory>, t: EntryType, ident: Seq<char>)
    requires
        has_identity(rows, t, ident),
    ensures
        0 <= first_identity_index(rows, t, ident) < rows.len(),
        matches_identity(rows[first_identity_index(rows, t, ident)], t, ident),
        forall|j: int|
            0 <= j < first_identity_index(rows, t, ident) ==> !matches_identity(rows[j], t, ident),
    decreases rows.len(),
{
    if matches_identity(rows[0], t, ident) {
    } else {
        let w = choose|i: int| 0 <= i < rows.len() && matches_identity(rows[i], t, ident);
        assert(rows.drop_first()[w - 1] == rows[w]);
        lemma_first_identity_index(rows.drop_first(), t, ident);
        let k = first_identity_index(rows.drop_first(), t, ident);
        assert(rows.drop_first()[k] == rows[k + 1]);
        assert forall|j: int| 0 <= j < k + 1 implies !matches_identity(rows[j], t, ident) by {
            if j > 0 {
                assert(rows.drop_first()[j - 1] == rows[j]);
            }
        }
    }
}

/// Some row of `rows` has the given id.
pub open spec fn has_id(rows: Seq<ClipboardHistory>, id: i64) -> bool {
    exists|i: int| 0 <= i < rows.len() && rows[i].id == id
}

/// The first index of `rows` whose row has the given id.
pub open spec fn first_id_index(rows: Seq<ClipboardHistory>, id: i64) -> int
    decreases rows.len(),
{
    if rows.len() == 0 {
        0
    } else if rows[0].id == id {
        0
    } else {
        1 + first_id_index(rows.drop_first(), id)
    }
}

/// When some row has the id, `first_id_index` names the least index that
/// does.
pub proof fn lemma_first_id_index(rows: Seq<ClipboardHistory>, id: i64)
    requires
        has_id(rows, id),
    ensures
        0 <= first_id_index(rows, id) < rows.len(),
        rows[first_id_index(rows, id)].id == id,
        forall|j: int| 0 <= j < first_id_index(rows, id) ==> rows[j].id != id,
    decreases rows.len(),
{
    if rows[0].id == id {
    } else {
        let w = choose|i: int| 0 <= i < rows.len() && rows[i].id == id;
        assert(rows.drop_first()[w - 1] == rows[w]);
        lemma_first_id_index(rows.drop_first(), id);
        let k = first_id_index(rows.drop_first(), id);
        assert(rows.drop_first()[k] == rows[k + 1]);
        assert forall|j: int| 0 <= j < k + 1 implies rows[j].id != id by {
            if j > 0 {
                assert(rows.drop_first()[j - 1] == rows[j]);
            }
        }
    }
}

/// A repeat capture bumps the row: one more capture, a fresh
/// last-copied time, everything else untouched. The count saturates
/// rather than overflow.
pub open spec fn bumped_row(row: ClipboardHistory, now: i64) -> ClipboardHistory {
    ClipboardHistory {
        count: if row.count < i64::MAX {
            (row.count + 1) as i64
        } else {
            row.count
        },
        last_copied_date: now,
        ..row
    }
}

/// The row a fresh capture creates: all draft fields stored (absent
/// optional ones as empty), both timestamps at `now`, a count of one.
pub open spec fn is_fresh_row(row: ClipboardHistory, d: EntryDraft, id: i64, now: i64) -> bool {
    &&& row.id == id
    &&& row.content@ == d.content@
    &&& row.first_copied_date == now
    &&& row.last_copied_date == now
    &&& row.window_title@ == d.window_title@
    &&& row.window_exe@ == d.window_exe@
    &&& row.type_ == d.type_
    &&& row.count == 1
    &&& row.image@ == opt_view(d.image)
    &&& row.html@ == opt_view(d.html)
}

/// A row with its content overwritten (the OCR-completion mutation).
pub open spec fn with_content(row: ClipboardHistory, content: String) -> ClipboardHistory {
    ClipboardHistory { content, ..row }
}

/// An index record with its content overwritten.
pub open spec fn fts_with_content(f: FtsRecord, content: String) -> FtsRecord {
    FtsRecord { content, ..f }
}

/// The effect of one `upsert` call: the relation between the store
/// before and after, the draft, the capture time, and the result.
pub open spec fn upsert_transition(
    pre: HistoryStore,
    post: HistoryStore,
    d: EntryDraft,
    now: i64,
    r: Result<i64, StorageError>,
) -> bool {
    &&& post.next_id_view() >= pre.next_id_view()
    &&& has_identity(pre.rows_view(), d.type_, d.identity()) ==> {
        let k = first_identity_index(pre.rows_view(), d.type_, d.identity());
        &&& r == Ok::<i64, StorageError>(pre.rows_view()[k].id)
        &&& post.rows_view() == pre.rows_view().update(k, bumped_row(pre.rows_view()[k], now))
        &&& post.fts_view() == pre.fts_view()
        &&& post.next_id_view() == pre.next_id_view()
    }
    &&& !has_identity(pre.rows_view(), d.type_, d.identity()) && pre.next_id_view() < i64::MAX
        ==> {
        &&& r == Ok::<i64, StorageError>(pre.next_id_view())
        &&& post.rows_view() == pre.rows_view().push(post.rows_view().last())
        &&& is_fresh_row(post.rows_view().last(), d, pre.next_id_view(), now)
        &&& post.fts_view() == pre.fts_view().push(post.fts_view().last())
        &&& post.next_id_view() == pre.next_id_view() + 1
    }
    &&& !has_identity(pre.rows_view(), d.type_, d.identity()) && pre.next_id_view() == i64::MAX
        ==> {
        &&& r == Err::<i64, StorageError>(StorageError::Full)
        &&& post.rows_view() == pre.rows_view()
        &&& post.fts_view() == pre.fts_view()
        &&& post.next_id_view() == pre.next_id_view()
    }
}

/// The effect of one `update_content` call.
pub open spec fn update_content_transition(
    pre: HistoryStore,
    post: HistoryStore,
    id: i64,
    content: String,
    r: Result<(), StorageError>,
) -> bool {
    &&& post.next_id_view() == pre.next_id_view()
    &&& has_id(pre.rows_view(), id) ==> {
        let k = first_id_index(pre.rows_view(), id);
        &&& r == Ok::<(), StorageError>(())
        &&& post.rows_view() == pre.rows_view().update(
            k,
            with_content(pre.rows_view()[k], content),
        )
        &&& post.fts_view() == pre.fts_view().update(
            k,
            fts_with_content(pre.fts_view()[k], content),
        )
    }
    &&& !has_id(pre.rows_view(), id) ==> {
        &&& r == Err::<(), StorageError>(StorageError::NotFound)
        &&& post.rows_view() == pre.rows_view()
        &&& post.fts_view() == pre.fts_view()
    }
}

/// The effect of one `delete` call.
pub open spec fn delete_transition(pre: HistoryStore, post: HistoryStore, id: i64) -> bool {
    &&& post.next_id_view() == pre.next_id_view()
    &&& has_id(pre.rows_view(), id) ==> {
        let k = first_id_index(pre.rows_view(), id);
        &&& post.rows_view() == pre.rows_view().remove(k)
        &&& post.fts_view() == pre.fts_view().remove(k)
    }
    &&& !has_id(pre.rows_view(), id) ==> {
        &&& post.rows_view() == pre.rows_view()
        &&& post.fts_view() == pre.fts_view()
    }
}

/// The persistent clipboard history: primary rows, the shadow full-text
/// index, and the next identifier to assign.
pub struct HistoryStore {
    rows: Vec<ClipboardHistory>,
    fts: Vec<FtsRecord>,
    next_id: i64,
}

impl HistoryStore {
    /// The primary table, as a sequence of rows in insertion order.
    pub closed spec fn rows_view(self) -> Seq<ClipboardHistory> {
        self.rows@
    }

    /// The full-text index, record `i` shadowing row `i`.
    pub closed spec fn fts_view(self) -> Seq<FtsRecord> {
        self.fts@
    }

    /// The next identifier the store will assign.
    pub closed spec fn next_id_view(self) -> i64 {
        self.next_id
    }

    /// Well-formedness: the index mirrors the table row for row; ids are
    /// assigned once, grow strictly with insertion order, and stay below
    /// `next_id`.
    pub open spec fn wf(self) -> bool {
        &&& self.fts_view().len() == self.rows_view().len()
        &&& forall|i: int|
            0 <= i < self.rows_view().len() ==> fts_mirrors_row(
                self.fts_view()[i],
                #[trigger] self.rows_view()[i],
            )
        &&& forall|i: int| 0 <= i < self.rows_view().len() ==> 1 <= (#[trigger] self.rows_view()[i]).id
        &&& forall|i: int, j: int|
            0 <= i < j < self.rows_view().len() ==> (#[trigger] self.rows_view()[i]).id < (
            #[trigger] self.rows_view()[j]).id
        &&& forall|i: int|
            0 <= i < self.rows_view().len() ==> (#[trigger] self.rows_view()[i]).id
                < self.next_id_view()
        &&& 1 <= self.next_id_view()
        &&& self.rows_view().len() < self.next_id_view()
    }

    /// An empty store, ready to assign id 1.
    pub fn new() -> (s: Self)
        ensures
            s.wf(),
            s.rows_view() =~= Seq::<ClipboardHistory>::empty(),
            s.fts_view() =~= Seq::<FtsRecord>::empty(),
            s.next_id_view() == 1,
    {
        HistoryStore { rows: Vec::new(), fts: Vec::new(), next_id: 1 }
    }

    /// The number of rows currently stored.
    pub fn len(&self) -> (n: usize)
        ensures
            n == self.rows_view().len(),
    {
        self.rows.len()
    }

    /// Finds the first row carrying the draft's identity, scanning in
    /// insertion order exactly as the lookup of a repeat capture does.
    fn find_identity(&self, t: EntryType, ident: &String) -> (r: Option<usize>)
        ensures
            match r {
                Option::Some(i) => i < self.rows_view().len() && matches_identity(
                    self.rows_view()[i as int],
                    t,
                    ident@,
                ) && i as int == first_identity_index(self.rows_view(), t, ident@),
                Option::None => !has_identity(self.rows_view(), t, ident@),
            },
    {
        let n = self.rows.len();
        let mut i: usize = 0;
        while i < n
            invariant
                n == self.rows@.len(),
                0 <= i <= n,
                forall|j: int| 0 <= j < i ==> !matches_identity(self.rows@[j], t, ident@),
            decreases n - i,
        {
            let row = &self.rows[i];
            let payload: &String = if row.type_ == EntryType::Image {
                &row.image
            } else {
                &row.content
            };
            if row.type_ == t && crate::text::str_eq(payload.as_str(), ident.as_str()) {
                assert(matches_identity(self.rows@[i as int], t, ident@));
                proof {
                    lemma_first_identity_index(self.rows@, t, ident@);
                }
                return Some(i);
            }
            i += 1;
        }
        None
    }

    /// Finds the first row with the given id.
    fn find_id(&self, id: i64) -> (r: Option<usize>)
        ensures
            match r {
                Option::Some(i) => i < self.rows_view().len() && self.rows_view()[i as int].id == id
                    && i as int == first_id_index(self.rows_view(), id),
                Option::None => !has_id(self.rows_view(), id),
            },
    {
        let n = self.rows.len();
        let mut i: usize = 0;
        while i < n
            invariant
                n == self.rows@.len(),
                0 <= i <= n,
                forall|j: int| 0 <= j < i ==> self.rows@[j].id != id,
            decreases n - i,
        {
            if self.rows[i].id == id {
                proof {
                    lemma_first_id_index(self.rows@, id);
                }
                return Some(i);
            }
            i += 1;
        }
        None
    }

    /// Is a row with the draft's identity already stored?
    pub fn contains_draft_identity(&self, draft: &EntryDraft) -> (r: bool)
        requires
            draft.wf(),
        ensures
            r == has_identity(self.rows_view(), draft.type_, draft.identity()),
    {
        let ident: &String = if draft.type_ == EntryType::Image {
            match &draft.image {
                Option::Some(s) => s,
                // Unreachable under `draft.wf()`: an image draft carries
                // its payload.
                Option::None => &draft.content,
            }
        } else {
            &draft.content
        };
        assert(ident@ == draft.identity());
        self.find_identity(draft.type_, ident).is_some()
    }

    /// Insert-or-update keyed by content identity, one atomic unit.
    ///
    /// A capture whose identity is already stored bumps that row: its
    /// count grows by one, its last-copied time becomes `now`, and the
    /// index is left alone because nothing searchable changed. An unseen
    /// identity becomes a fresh row with a fresh id, together with its
    /// index record. The only failure is an exhausted id space.
    pub fn upsert(&mut self, draft: EntryDraft, now: i64) -> (r: Result<i64, StorageError>)
        requires
            old(self).wf(),
            draft.wf(),
        ensures
            final(self).wf(),
            upsert_transition(*old(self), *final(self), draft, now, r),
    {
        let ident: &String = if draft.type_ == EntryType::Image {
            match &draft.image {
                Option::Some(s) => s,
                // Unreachable under `draft.wf()`: an image draft carries
                // its payload.
                Option::None => &draft.content,
            }
        } else {
            &draft.content
        };
        assert(ident@ == draft.identity());
        let found = self.find_identity(draft.type_, ident);
        match found {
            Option::Some(i) => {
                let c = self.rows[i].count;
                let new_c: i64 = if c < i64::MAX {
                    c + 1
                } else {
                    c
                };
                let id = self.rows[i].id;
                self.rows[i].count = new_c;
                self.rows[i].last_copied_date = now;
                assert(self.rows@ =~= old(self).rows@.update(
                    i as int,
                    bumped_row(old(self).rows@[i as int], now),
                ));
                Ok(id)
            },
            Option::None => {
                if self.next_id == i64::MAX {
                    return Err(StorageError::Full);
                }
                let id = self.next_id;
                self.next_id = id + 1;
                let EntryDraft { content, window_title, window_exe, type_, html, image } = draft;
                let image_s: String = match image {
                    Option::Some(s) => s,
                    Option::None => String::new(),
                };
                let html_s: String = match html {
                    Option::Some(s) => s,
                    Option::None => String::new(),
                };
                let rec = FtsRecord {
                    rowid: id,
                    content: content.clone(),
                    window_title: window_title.clone(),
                    window_exe: window_exe.clone(),
                };
                let row = ClipboardHistory {
                    id,
                    content,
                    first_copied_date: now,
                    last_copied_date: now,
                    window_title,
                    window_exe,
                    type_,
                    count: 1,
                    image: image_s,
                    html: html_s,
                };
                self.rows.push(row);
                self.fts.push(rec);
                Ok(id)
            },
        }
    }

    /// Overwrites the content of the row with the given id, refreshing the
    /// index record in the same call. Fails with `NotFound` when the row
    /// no longer exists — callers treat that as a benign no-op.
    pub fn update_content(&mut self, id: i64, new_content: String) -> (r: Result<
        (),
        StorageError,
    >)
        requires
            old(self).wf(),
        ensures
            final(self).wf(),
            update_content_transition(*old(self), *final(self), id, new_content, r),
    {
        let found = self.find_id(id);
        match found {
            Option::Some(i) => {
                let copy_for_fts = new_content.clone();
                self.rows[i].content = new_content;
                self.fts[i].content = copy_for_fts;
                assert(self.rows@ =~= old(self).rows@.update(
                    i as int,
                    with_content(old(self).rows@[i as int], self.rows@[i as int].content),
                ));
                assert(self.fts@ =~= old(self).fts@.update(
                    i as int,
                    fts_with_content(old(self).fts@[i as int], self.fts@[i as int].content),
                ));
                Ok(())
            },
            Option::None => Err(StorageError::NotFound),
        }
    }

    /// Removes the row with the given id together with its index record.
    /// Idempotent: deleting an id that is not present changes nothing.
    pub fn delete(&mut self, id: i64)
        requires
            old(self).wf(),
        ensures
            final(self).wf(),
            delete_transition(*old(self), *final(self), id),
    {
        let found = self.find_id(id);
        match found {
            Option::Some(i) => {
                self.rows.remove(i);
                self.fts.remove(i);
            },
            Option::None => {},
        }
    }

    /// A filtered, sorted, paginated read-only view of the history:
    /// delegated to the query engine over the primary rows and the index
    /// records that shadow them.
    ///
    /// On success the result is exactly one page of the sorted filtered
    /// rows; an unrecognized sort request or a negative offset or limit
    /// is rejected before any data is touched.
    pub fn get_history(
        &self,
        filter: Option<&FilterOptions>,
        sort: Option<&SortOptions>,
        offset: Option<i64>,
        limit: Option<i64>,
    ) -> (r: Result<Vec<ClipboardHistory>, QueryError>)
        requires
            self.wf(),
        ensures
            spec_sort_key(sort) matches Err(e) ==> r == Err::<Vec<ClipboardHistory>, QueryError>(e),
            spec_sort_key(sort) is Ok ==> (spec_pagination(offset, limit) matches Err(e) ==> r
                == Err::<Vec<ClipboardHistory>, QueryError>(e)),
            spec_sort_key(sort) is Ok && spec_pagination(offset, limit) is Ok ==> {
                let key = spec_sort_key(sort)->Ok_0;
                let off = spec_pagination(offset, limit)->Ok_0.0;
                let lim = spec_pagination(offset, limit)->Ok_0.1;
                let flt = filtered_rows(self.rows_view(), filter_val(filter));
                let srt = sorted_of(flt, key);
                &&& r is Ok
                &&& is_sort_of(flt, srt, key)
                &&& r->Ok_0@ == srt.subrange(
                    clip_to(off, srt.len() as int),
                    clip_to(off + lim, srt.len() as int),
                )
                &&& forall|k: int| 0 <= k < r->Ok_0@.len() ==> flt.contains(#[trigger] r->Ok_0@[k])
            },
    {
        proof {
            assert forall|i: int, j: int| 0 <= i < j < self.rows@.len() implies (
            #[trigger] self.rows@[i]).id != (#[trigger] self.rows@[j]).id by {
                assert(self.rows_view()[i].id < self.rows_view()[j].id);
            }
            assert(distinct_ids(self.rows@));
            assert(self.rows@.len() <= i64::MAX);
        }
        run_query(&self.rows, &self.fts, filter, sort, offset, limit)
    }

    /// A copy of the row with the given id, if it is still present.
    pub fn get_entry(&self, id: i64) -> (r: Option<ClipboardHistory>)
        ensures
            match r {
                Option::Some(row) => has_id(self.rows_view(), id) && row == self.rows_view()[
                    first_id_index(self.rows_view(), id)
                ],
                Option::None => !has_id(self.rows_view(), id),
            },
    {
        let found = self.find_id(id);
        match found {
            Option::Some(i) => Some(self.rows[i].clone()),
            Option::None => None,
        }
    }
}

} // verus!
