//! The content store: a table of captured clipboard values with
//! insert-or-update by text equality, ordered search, favorite toggling and
//! age-based eviction that never removes favorites.

use vstd::prelude::*;
use vstd::relations::sorted_by;
use crate::models::{
    ClipboardEntry, ClipboardSearchParams, EntryModel, NewClipboardEntry, NewEntryModel,
    ParamsModel,
};
use crate::text::{contains_seq, contains_str, str_eq};

verus! {

/// Errors of the store.  `Storage` stands for a persistence failure (here:
/// the row-identity space is exhausted); `NotFound` for a point operation on
/// a missing row.
#[derive(Debug, Clone, Copy, PartialEq, Eq, Structural)]
pub enum StoreError {
    Storage,
    NotFound,
}

/// Mathematical view of the store: the rows in insertion order, and the next
/// identity to assign.
#[verifier::ext_equal]
pub ghost struct StoreModel {
    pub rows: Seq<EntryModel>,
    pub next_id: int,
}

/// All row identities are distinct.
pub open spec fn row_ids_unique(rows: Seq<EntryModel>) -> bool {
    forall|i: int, j: int|
        0 <= i < j < rows.len() ==> #[trigger] rows[i].id != #[trigger] rows[j].id
}

/// No two rows carry the same text: at most one row per distinct value.
pub open spec fn row_texts_unique(rows: Seq<EntryModel>) -> bool {
    forall|i: int, j: int|
        0 <= i < j < rows.len() && #[trigger] rows[i].text_content is Some ==> rows[i].text_content
            != #[trigger] rows[j].text_content
}

/// Every row identity was assigned before `next_id`.
pub open spec fn row_ids_bounded(rows: Seq<EntryModel>, next_id: int) -> bool {
    forall|i: int| 0 <= i < rows.len() ==> 1 <= #[trigger] rows[i].id < next_id
}

/// Some row carries exactly the text `t`.
pub open spec fn has_text(rows: Seq<EntryModel>, t: Seq<char>) -> bool {
    exists|i: int| 0 <= i < rows.len() && #[trigger] rows[i].text_content == Some(t)
}

/// The index of the row carrying text `t` (unique when the store is
/// well-formed).
pub open spec fn text_index(rows: Seq<EntryModel>, t: Seq<char>) -> int {
    choose|i: int| 0 <= i < rows.len() && #[trigger] rows[i].text_content == Some(t)
}

/// Some row has the identity `id`.
pub open spec fn has_id(rows: Seq<EntryModel>, id: int) -> bool {
    exists|i: int| 0 <= i < rows.len() && #[trigger] rows[i].id == id
}

/// The index of the row with identity `id` (unique when the store is
/// well-formed).
pub open spec fn id_index(rows: Seq<EntryModel>, id: int) -> int {
    choose|i: int| 0 <= i < rows.len() && #[trigger] rows[i].id == id
}

/// The row a fresh insert produces: identity and timestamp assigned,
/// favorite cleared.
pub open spec fn fresh_row(e: NewEntryModel, id: int, now: int) -> EntryModel {
    EntryModel {
        id: id,
        content_type: e.content_type,
        text_content: e.text_content,
        file_path: e.file_path,
        metadata: e.metadata,
        created_at: now,
        favorite: false,
        source_app: e.source_app,
    }
}

/// The row an upsert of the same text leaves behind: timestamp and source
/// refreshed, everything else — the favorite flag above all — untouched.
pub open spec fn refreshed_row(row: EntryModel, e: NewEntryModel, now: int) -> EntryModel {
    EntryModel { created_at: now, source_app: e.source_app, ..row }
}

/// What `insert` guarantees: a fresh row is appended, or the identity space
/// is exhausted and nothing changes.
pub open spec fn insert_post(
    pre: StoreModel,
    e: NewEntryModel,
    now: int,
    post: StoreModel,
    r: Result<i64, StoreError>,
) -> bool {
    if pre.next_id < i64::MAX {
        &&& post.rows == pre.rows.push(fresh_row(e, pre.next_id, now))
        &&& post.next_id == pre.next_id + 1
        &&& r is Ok
        &&& r->Ok_0 == pre.next_id
    } else {
        &&& post == pre
        &&& r == Err::<i64, StoreError>(StoreError::Storage)
    }
}

/// What `upsert` guarantees: a row with the same text is refreshed in place
/// and keeps its identity; otherwise the entry is inserted as a fresh row.
pub open spec fn upsert_post(
    pre: StoreModel,
    e: NewEntryModel,
    now: int,
    post: StoreModel,
    r: Result<i64, StoreError>,
) -> bool {
    if e.text_content is Some && has_text(pre.rows, e.text_content->0) {
        let i = text_index(pre.rows, e.text_content->0);
        &&& post.rows == pre.rows.update(i, refreshed_row(pre.rows[i], e, now))
        &&& post.next_id == pre.next_id
        &&& r is Ok
        &&& r->Ok_0 == pre.rows[i].id
    } else {
        insert_post(pre, e, now, post, r)
    }
}

/// The content store.  Rows live in insertion order; identities are assigned
/// from a monotone counter.
pub struct ContentStore {
    entries: Vec<ClipboardEntry>,
    next_id: i64,
}

impl View for ContentStore {
    type V = StoreModel;

    closed spec fn view(&self) -> StoreModel {
        StoreModel {
            rows: self.entries@.map_values(|e: ClipboardEntry| e@),
            next_id: self.next_id as int,
        }
    }
}

/// Well-formedness of a store model: identities unique, bounded by the
/// counter, and at most one row per distinct text.
pub open spec fn model_wf(m: StoreModel) -> bool {
    &&& 1 <= m.next_id <= i64::MAX
    &&& row_ids_bounded(m.rows, m.next_id)
    &&& row_ids_unique(m.rows)
    &&& row_texts_unique(m.rows)
}

impl ContentStore {
    /// Well-formedness of the store.
    pub open spec fn wf(&self) -> bool {
        model_wf(self@)
    }

    /// An empty store.
    pub fn new() -> (s: Self)
        ensures
            s.wf(),
            s@.rows == Seq::<EntryModel>::empty(),
            s@.next_id == 1,
    {
        let s = ContentStore { entries: Vec::new(), next_id: 1 };
        proof {
            assert(s@.rows =~= Seq::<EntryModel>::empty());
        }
        s
    }

    /// How many rows the store holds.
    pub fn len(&self) -> (n: usize)
        ensures
            n == self@.rows.len(),
    {
        self.entries.len()
    }

    /// The index of the row carrying exactly the text `t`, if any.
    fn find_by_text(&self, t: &str) -> (r: Option<usize>)
        ensures
            match r {
                Some(i) => 0 <= i < self@.rows.len() && self@.rows[i as int].text_content == Some(
                    t@,
                ),
                None => !has_text(self@.rows, t@),
            },
    {
        let n = self.entries.len();
        let mut k: usize = 0;
        while k < n
            invariant
                n == self.entries.len(),
                0 <= k <= n,
                forall|j: int| 0 <= j < k ==> #[trigger] self@.rows[j].text_content != Some(t@),
            decreases n - k,
        {
            let e = &self.entries[k];
            proof {
                assert(self@.rows[k as int] == self.entries@[k as int]@);
            }
            let hit = match &e.text_content {
                Some(s) => str_eq(s.as_str(), t),
                None => false,
            };
            if hit {
                return Some(k);
            }
            k = k + 1;
        }
        None
    }

    /// The index of the row with identity `id`, if any.
    fn find_by_id(&self, id: i64) -> (r: Option<usize>)
        ensures
            match r {
                Some(i) => 0 <= i < self@.rows.len() && self@.rows[i as int].id == id as int,
                None => !has_id(self@.rows, id as int),
            },
    {
        let n = self.entries.len();
        let mut k: usize = 0;
        while k < n
            invariant
                n == self.entries.len(),
                0 <= k <= n,
                forall|j: int| 0 <= j < k ==> #[trigger] self@.rows[j].id != id as int,
            decreases n - k,
        {
            let e = &self.entries[k];
            proof {
                assert(self@.rows[k as int] == self.entries@[k as int]@);
            }
            if e.id == id {
                return Some(k);
            }
            k = k + 1;
        }
        None
    }

    /// Appends a fresh row for `entry`, stamped `now`, with `favorite`
    /// cleared, and returns its identity.  Fails with `Storage` only when
    /// the identity space is exhausted.  The caller must ensure that no row
    /// already carries the same text; `upsert_entry_at` does so.
    pub fn insert_entry_at(&mut self, entry: NewClipboardEntry, now: i64) -> (r: Result<
        i64,
        StoreError,
    >)
        requires
            old(self).wf(),
            entry.text_content is Some ==> !has_text(old(self)@.rows, entry@.text_content->0),
        ensures
            final(self).wf(),
            insert_post(old(self)@, entry@, now as int, final(self)@, r),
    {
        if self.next_id == i64::MAX {
            return Err(StoreError::Storage);
        }
        let ghost em = entry@;
        let id = self.next_id;
        self.next_id = self.next_id + 1;
        let ghost pre_rows = self@.rows;
        self.entries.push(ClipboardEntry {
            id: id,
            content_type: entry.content_type,
            text_content: entry.text_content,
            file_path: entry.file_path,
            metadata: entry.metadata,
            created_at: now,
            favorite: false,
            source_app: entry.source_app,
        });
        proof {
            assert(self@.rows =~= pre_rows.push(fresh_row(em, id as int, now as int)));
        }
        Ok(id)
    }

    /// The capture write path: if a row already carries the same text, its
    /// timestamp and source are refreshed in place — the favorite flag and
    /// the identity survive — and no second row appears; otherwise the entry
    /// is inserted as a fresh row.
    pub fn upsert_entry_at(&mut self, entry: NewClipboardEntry, now: i64) -> (r: Result<
        i64,
        StoreError,
    >)
        requires
            old(self).wf(),
        ensures
            final(self).wf(),
            upsert_post(old(self)@, entry@, now as int, final(self)@, r),
    {
        let ghost em = entry@;
        let ghost pre = self@;
        let idx_opt = match &entry.text_content {
            Some(t) => self.find_by_text(t.as_str()),
            None => None,
        };
        match idx_opt {
            Some(i) => {
                let ghost t = em.text_content->0;
                let mut row = self.entries.remove(i);
                let id = row.id;
                row.created_at = now;
                row.source_app = entry.source_app;
                self.entries.insert(i, row);
                proof {
                    assert(has_text(pre.rows, t));
                    let k = text_index(pre.rows, t);
                    assert(0 <= k < pre.rows.len() && pre.rows[k].text_content == Some(t));
                    assert(k == i as int);
                    assert(self@.rows =~= pre.rows.update(
                        i as int,
                        refreshed_row(pre.rows[i as int], em, now as int),
                    ));
                }
                Ok(id)
            },
            None => self.insert_entry_at(entry, now),
        }
    }

    /// Point lookup by identity; absence is not an error.
    pub fn get_entry(&self, id: i64) -> (r: Option<ClipboardEntry>)
        requires
            self.wf(),
        ensures
            match r {
                Some(e) => has_id(self@.rows, id as int) && e@ == self@.rows[id_index(
                    self@.rows,
                    id as int,
                )],
                None => !has_id(self@.rows, id as int),
            },
    {
        match self.find_by_id(id) {
            Some(i) => {
                let e = self.entries[i].clone();
                proof {
                    assert(has_id(self@.rows, id as int));
                    let k = id_index(self@.rows, id as int);
                    assert(0 <= k < self@.rows.len() && self@.rows[k].id == id as int);
                    assert(k == i as int);
                }
                Some(e)
            },
            None => None,
        }
    }

    /// Flips the favorite flag of the row with identity `id` and returns the
    /// new state; `NotFound` when no row has that identity.
    pub fn toggle_favorite(&mut self, id: i64) -> (r: Result<bool, StoreError>)
        requires
            old(self).wf(),
        ensures
            final(self).wf(),
            toggle_post(old(self)@, id as int, final(self)@, r),
    {
        let ghost pre = self@;
        match self.find_by_id(id) {
            Some(i) => {
                let mut row = self.entries.remove(i);
                let new_state = !row.favorite;
                row.favorite = new_state;
                self.entries.insert(i, row);
                proof {
                    assert(has_id(pre.rows, id as int));
                    let k = id_index(pre.rows, id as int);
                    assert(0 <= k < pre.rows.len() && pre.rows[k].id == id as int);
                    assert(k == i as int);
                    assert(self@.rows =~= pre.rows.update(
                        i as int,
                        toggled_row(pre.rows[i as int]),
                    ));
                }
                Ok(new_state)
            },
            None => Err(StoreError::NotFound),
        }
    }
}

/// A row with its favorite flag flipped.
pub open spec fn toggled_row(row: EntryModel) -> EntryModel {
    EntryModel { favorite: !row.favorite, ..row }
}

/// What `toggle_favorite` guarantees: exactly one flag flips, and the new
/// state is returned; everything else is untouched.
pub open spec fn toggle_post(
    pre: StoreModel,
    id: int,
    post: StoreModel,
    r: Result<bool, StoreError>,
) -> bool {
    if has_id(pre.rows, id) {
        let i = id_index(pre.rows, id);
        &&& post.rows == pre.rows.update(i, toggled_row(pre.rows[i]))
        &&& post.next_id == pre.next_id
        &&& r == Ok::<bool, StoreError>(!pre.rows[i].favorite)
    } else {
        &&& post == pre
        &&& r == Err::<bool, StoreError>(StoreError::NotFound)
    }
}

/// The views of a sequence of rows.
pub open spec fn views_of(v: Seq<ClipboardEntry>) -> Seq<EntryModel> {
    v.map_values(|e: ClipboardEntry| e@)
}

/// The retrieval order: favorites precede non-favorites; within a group,
/// younger rows precede older ones; ties go to the row inserted first.
pub open spec fn entry_le(a: EntryModel, b: EntryModel) -> bool {
    if a.favorite != b.favorite {
        a.favorite
    } else if a.created_at != b.created_at {
        a.created_at > b.created_at
    } else {
        a.id <= b.id
    }
}

/// The retrieval order as a relation value.
pub open spec fn entry_order() -> spec_fn(EntryModel, EntryModel) -> bool {
    |a: EntryModel, b: EntryModel| entry_le(a, b)
}

/// The retrieval order is reflexive, total and transitive.
pub proof fn lemma_entry_le_props()
    ensures
        forall|a: EntryModel| #[trigger] entry_le(a, a),
        forall|a: EntryModel, b: EntryModel| #[trigger] entry_le(a, b) || #[trigger] entry_le(
            b,
            a,
        ),
        forall|a: EntryModel, b: EntryModel, c: EntryModel|
            #![trigger entry_le(a, b), entry_le(b, c)]
            entry_le(a, b) && entry_le(b, c) ==> entry_le(a, c),
{
}

/// Whether a row passes the search filters: substring of the text (exact,
/// case-sensitive; an empty query passes everything), equality of the content
/// type, and the favorites restriction.
pub open spec fn row_matches(e: EntryModel, p: ParamsModel) -> bool {
    &&& (p.query is Some && p.query->0.len() > 0 ==> e.text_content is Some && contains_seq(
        e.text_content->0,
        p.query->0,
    ))
    &&& (p.content_type is Some ==> e.content_type == p.content_type->0)
    &&& (p.favorites_only ==> e.favorite)
}

/// The search filters as a predicate value.
pub open spec fn matcher(p: ParamsModel) -> spec_fn(EntryModel) -> bool {
    |e: EntryModel| row_matches(e, p)
}

/// The requested page of an ordered result list: `offset` rows are skipped
/// (a negative offset counts as zero), then at most `limit` rows are taken
/// (a negative limit means no bound).
pub open spec fn page(s: Seq<EntryModel>, limit: int, offset: int) -> Seq<EntryModel> {
    let off = if offset < 0 {
        0
    } else if offset > s.len() {
        s.len() as int
    } else {
        offset
    };
    let lim = if limit < 0 || limit > s.len() - off {
        s.len() - off
    } else {
        limit
    };
    s.subrange(off, off + lim)
}

/// What `search_entries` guarantees: the result is the requested page of the
/// one ordered arrangement of the rows that pass the filters.
pub open spec fn search_post(pre: StoreModel, p: ParamsModel, results: Seq<EntryModel>) -> bool {
    exists|sorted: Seq<EntryModel>|
        {
            &&& #[trigger] sorted_by(sorted, entry_order())
            &&& sorted.to_multiset() == pre.rows.filter(matcher(p)).to_multiset()
            &&& results == page(sorted, p.limit, p.offset)
        }
}

/// Whether a row passes the search filters.
fn matches_params(e: &ClipboardEntry, params: &ClipboardSearchParams) -> (r: bool)
    ensures
        r == row_matches(e@, params@),
{
    let query_ok = match &params.query {
        Some(q) => {
            if q.as_str().is_empty() {
                true
            } else {
                match &e.text_content {
                    Some(t) => contains_str(t.as_str(), q.as_str()),
                    None => false,
                }
            }
        },
        None => true,
    };
    let type_ok = match &params.content_type {
        Some(ct) => str_eq(e.content_type.as_str(), ct.as_str()),
        None => true,
    };
    let fav_ok = !params.favorites_only || e.favorite;
    query_ok && type_ok && fav_ok
}

/// The retrieval order, decided on the rows themselves.
fn entry_le_exec(a: &ClipboardEntry, b: &ClipboardEntry) -> (r: bool)
    ensures
        r == entry_le(a@, b@),
{
    if a.favorite != b.favorite {
        a.favorite
    } else if a.created_at != b.created_at {
        a.created_at > b.created_at
    } else {
        a.id <= b.id
    }
}

/// Selection sort by the retrieval order: the result is ordered and holds
/// exactly the given rows.
fn sort_entries(v: Vec<ClipboardEntry>) -> (out: Vec<ClipboardEntry>)
    ensures
        sorted_by(views_of(out@), entry_order()),
        views_of(out@).to_multiset() == views_of(v@).to_multiset(),
{
    let ghost orig = views_of(v@);
    let mut rem = v;
    let mut out: Vec<ClipboardEntry> = Vec::new();
    proof {
        broadcast use vstd::seq_lib::group_to_multiset_ensures;
        broadcast use vstd::multiset::group_multiset_axioms;

        assert(views_of(out@) =~= Seq::<EntryModel>::empty());
        assert(views_of(out@).to_multiset().add(views_of(rem@).to_multiset())
            =~= orig.to_multiset());
    }
    while rem.len() > 0
        invariant
            views_of(out@).to_multiset().add(views_of(rem@).to_multiset()) == orig.to_multiset(),
            sorted_by(views_of(out@), entry_order()),
            forall|a: int, b: int|
                0 <= a < views_of(out@).len() && 0 <= b < views_of(rem@).len()
                    ==> entry_le(#[trigger] views_of(out@)[a], #[trigger] views_of(rem@)[b]),
        decreases rem.len(),
    {
        let ghost rem_m = views_of(rem@);
        let ghost out_m = views_of(out@);

        // Find the first minimal remaining row.
        let mut m: usize = 0;
        let mut k: usize = 1;
        proof {
            lemma_entry_le_props();
            assert(rem_m[0] == rem@[0]@);
        }
        while k < rem.len()
            invariant
                rem_m == views_of(rem@),
                0 < rem@.len(),
                0 <= m < k,
                k <= rem@.len(),
                forall|j: int| 0 <= j < k ==> entry_le(rem_m[m as int], #[trigger] rem_m[j]),
            decreases rem@.len() - k,
        {
            proof {
                lemma_entry_le_props();
                assert(rem_m[m as int] == rem@[m as int]@);
                assert(rem_m[k as int] == rem@[k as int]@);
            }
            if !entry_le_exec(&rem[m], &rem[k]) {
                m = k;
            }
            k = k + 1;
        }

        let x = rem.remove(m);
        let ghost xm = x@;
        out.push(x);
        proof {
            broadcast use vstd::seq_lib::group_to_multiset_ensures;
            broadcast use vstd::multiset::group_multiset_axioms;

            lemma_entry_le_props();
            assert(xm == rem_m[m as int]);
            assert(views_of(rem@) =~= rem_m.remove(m as int));
            assert(views_of(out@) =~= out_m.push(xm));
            rem_m.remove_ensures(m as int);
            assert(views_of(out@).to_multiset() =~= out_m.to_multiset().insert(xm));
            assert(views_of(rem@).to_multiset() =~= rem_m.to_multiset().remove(xm));
            assert(rem_m.to_multiset().count(xm) > 0) by {
                assert(rem_m.contains(rem_m[m as int]));
            }
            assert(views_of(out@).to_multiset().add(views_of(rem@).to_multiset())
                =~= orig.to_multiset());
        }
    }
    proof {
        broadcast use vstd::seq_lib::group_to_multiset_ensures;
        broadcast use vstd::multiset::group_multiset_axioms;

        assert(views_of(rem@) =~= Seq::<EntryModel>::empty());
        assert(views_of(out@).to_multiset() =~= orig.to_multiset());
    }
    out
}

/// The rows age-based eviction keeps: pinned rows — whatever their age — and
/// rows at least as young as the cutoff.
pub open spec fn keeps(cutoff: int) -> spec_fn(EntryModel) -> bool {
    |e: EntryModel| e.favorite || e.created_at >= cutoff
}

/// Filtering a well-formed row sequence keeps identities unique and bounded,
/// texts unique, and returns only rows of the original sequence.
pub proof fn lemma_filter_preserves_row_props(
    rows: Seq<EntryModel>,
    pred: spec_fn(EntryModel) -> bool,
    next_id: int,
)
    requires
        row_ids_unique(rows),
        row_texts_unique(rows),
        row_ids_bounded(rows, next_id),
    ensures
        row_ids_unique(rows.filter(pred)),
        row_texts_unique(rows.filter(pred)),
        row_ids_bounded(rows.filter(pred), next_id),
        forall|i: int|
            0 <= i < rows.filter(pred).len() ==> rows.contains(#[trigger] rows.filter(pred)[i]),
    decreases rows.len(),
{
    reveal(Seq::filter);
    if rows.len() > 0 {
        let prefix = rows.drop_last();
        assert forall|i: int| 0 <= i < prefix.len() implies #[trigger] prefix[i] == rows[i] by {}
        lemma_filter_preserves_row_props(prefix, pred, next_id);
        let sub = prefix.filter(pred);
        let out = rows.filter(pred);
        assert forall|i: int| 0 <= i < sub.len() implies rows.contains(#[trigger] sub[i]) by {
            assert(prefix.contains(sub[i]));
            let j = choose|j: int| 0 <= j < prefix.len() && prefix[j] == sub[i];
            assert(rows[j] == sub[i]);
        }
        if pred(rows.last()) {
            assert(out =~= sub.push(rows.last()));
            assert forall|a: int, b: int|
                0 <= a < b < out.len() implies #[trigger] out[a].id != #[trigger] out[b].id by {
                if b == out.len() - 1 {
                    assert(prefix.contains(out[a]));
                    let j = choose|j: int| 0 <= j < prefix.len() && prefix[j] == out[a];
                    assert(rows[j].id != rows[rows.len() - 1].id);
                }
            }
            assert forall|a: int, b: int|
                0 <= a < b < out.len() && #[trigger] out[a].text_content is Some implies out[a].text_content
                != #[trigger] out[b].text_content by {
                if b == out.len() - 1 {
                    assert(prefix.contains(out[a]));
                    let j = choose|j: int| 0 <= j < prefix.len() && prefix[j] == out[a];
                    assert(rows[j].text_content != rows[rows.len() - 1].text_content);
                }
            }
            assert forall|i: int| 0 <= i < out.len() implies 1 <= #[trigger] out[i].id < next_id by {
                if i < out.len() - 1 {
                    assert(out[i] == sub[i]);
                    assert(prefix.contains(sub[i]));
                    let j = choose|j: int| 0 <= j < prefix.len() && prefix[j] == sub[i];
                    assert(1 <= rows[j].id < next_id);
                }
            }
            assert forall|i: int| 0 <= i < out.len() implies rows.contains(#[trigger] out[i]) by {
                if i < out.len() - 1 {
                    assert(rows.contains(sub[i]));
                } else {
                    assert(out[i] == rows[rows.len() - 1]);
                }
            }
        } else {
            assert(out =~= sub);
        }
    }
}

impl ContentStore {
    /// Removes every non-favorite row strictly older than `cutoff` and
    /// returns how many rows went.  Favorites are outside the removal
    /// predicate altogether: none is removed, whatever its age.
    pub fn delete_older_than(&mut self, cutoff: i64) -> (r: u64)
        requires
            old(self).wf(),
        ensures
            final(self).wf(),
            final(self)@.next_id == old(self)@.next_id,
            final(self)@.rows == old(self)@.rows.filter(keeps(cutoff as int)),
            r == old(self)@.rows.len() - final(self)@.rows.len(),
    {
        let ghost pre = self@;
        let ghost pred = keeps(cutoff as int);
        let n = self.entries.len();
        let mut kept: Vec<ClipboardEntry> = Vec::new();
        let mut k: usize = 0;
        proof {
            assert(kept@.map_values(|e: ClipboardEntry| e@) =~= pre.rows.take(0).filter(pred))
                by {
                reveal(Seq::filter);
            }
        }
        while k < n
            invariant
                n == self.entries.len(),
                self@ == pre,
                0 <= k <= n,
                kept@.len() <= k,
                kept@.map_values(|e: ClipboardEntry| e@) == pre.rows.take(k as int).filter(pred),
                pred == keeps(cutoff as int),
            decreases n - k,
        {
            let ghost prev_kept = kept@.map_values(|e: ClipboardEntry| e@);
            proof {
                assert(self@.rows[k as int] == self.entries@[k as int]@);
                assert(pre.rows.take(k + 1).drop_last() =~= pre.rows.take(k as int));
                assert(pre.rows.take(k + 1).last() == pre.rows[k as int]);
                assert(pre.rows.take(k + 1).filter(pred) == if pred(pre.rows[k as int]) {
                    prev_kept.push(pre.rows[k as int])
                } else {
                    prev_kept
                }) by {
                    reveal(Seq::filter);
                }
            }
            let e = &self.entries[k];
            if e.favorite || e.created_at >= cutoff {
                kept.push(e.clone());
                proof {
                    assert(kept@.map_values(|x: ClipboardEntry| x@) =~= prev_kept.push(
                        pre.rows[k as int],
                    ));
                }
            }
            k = k + 1;
        }
        proof {
            assert(pre.rows.take(n as int) =~= pre.rows);
        }
        let removed = n - kept.len();
        self.entries = kept;
        proof {
            lemma_filter_preserves_row_props(pre.rows, pred, pre.next_id);
            pre.rows.lemma_filter_len(pred);
        }
        removed as u64
    }

    /// Eviction by age: removes every non-favorite row whose timestamp lies
    /// more than `days` whole days before `now`.
    pub fn delete_old_entries_at(&mut self, days: i64, now: i64) -> (r: u64)
        requires
            old(self).wf(),
            0 <= days,
            days * 86400 <= i64::MAX,
            i64::MIN <= now - days * 86400,
        ensures
            final(self).wf(),
            final(self)@.next_id == old(self)@.next_id,
            final(self)@.rows == old(self)@.rows.filter(keeps(now - days * 86400)),
            r == old(self)@.rows.len() - final(self)@.rows.len(),
    {
        let secs = days * 86400;
        let cutoff = now - secs;
        self.delete_older_than(cutoff)
    }

    /// Removes the row with identity `id`; returns whether a row went.
    pub fn delete_entry(&mut self, id: i64) -> (r: bool)
        requires
            old(self).wf(),
        ensures
            final(self).wf(),
            delete_post(old(self)@, id as int, final(self)@, r),
    {
        let ghost pre = self@;
        match self.find_by_id(id) {
            Some(i) => {
                let _ = self.entries.remove(i);
                proof {
                    assert(has_id(pre.rows, id as int));
                    let k = id_index(pre.rows, id as int);
                    assert(0 <= k < pre.rows.len() && pre.rows[k].id == id as int);
                    assert(k == i as int);
                    assert(self@.rows =~= pre.rows.remove(i as int));
                    assert forall|a: int, b: int|
                        0 <= a < b < self@.rows.len() implies #[trigger] self@.rows[a].id
                        != #[trigger] self@.rows[b].id by {
                        let a0: int = if a < i as int { a } else { a + 1 };
                        let b0: int = if b < i as int { b } else { b + 1 };
                        assert(self@.rows[a] == pre.rows[a0]);
                        assert(self@.rows[b] == pre.rows[b0]);
                    }
                    assert forall|a: int, b: int|
                        0 <= a < b < self@.rows.len() && #[trigger] self@.rows[a].text_content is Some implies self@.rows[a].text_content
                        != #[trigger] self@.rows[b].text_content by {
                        let a0: int = if a < i as int { a } else { a + 1 };
                        let b0: int = if b < i as int { b } else { b + 1 };
                        assert(self@.rows[a] == pre.rows[a0]);
                        assert(self@.rows[b] == pre.rows[b0]);
                    }
                    assert forall|a: int|
                        0 <= a < self@.rows.len() implies 1 <= #[trigger] self@.rows[a].id
                        < self@.next_id by {
                        let a0: int = if a < i as int { a } else { a + 1 };
                        assert(self@.rows[a] == pre.rows[a0]);
                    }
                }
                true
            },
            None => false,
        }
    }
}

/// What `delete_entry` guarantees: the one row with that identity goes, or
/// nothing does.
pub open spec fn delete_post(pre: StoreModel, id: int, post: StoreModel, r: bool) -> bool {
    if has_id(pre.rows, id) {
        &&& post.rows == pre.rows.remove(id_index(pre.rows, id))
        &&& post.next_id == pre.next_id
        &&& r == true
    } else {
        &&& post == pre
        &&& r == false
    }
}

impl ContentStore {
    /// The most recently stamped row: the first row carrying the maximal
    /// timestamp, or nothing when the store is empty.
    pub fn get_last_entry(&self) -> (r: Option<ClipboardEntry>)
        ensures
            match r {
                Some(e) => exists|i: int|
                    {
                        &&& 0 <= i < self@.rows.len()
                        &&& e@ == #[trigger] self@.rows[i]
                        &&& forall|j: int|
                            0 <= j < self@.rows.len() ==> #[trigger] self@.rows[j].created_at
                                <= e@.created_at
                        &&& forall|j: int| 0 <= j < i ==> #[trigger] self@.rows[j].created_at
                            < e@.created_at
                    },
                None => self@.rows.len() == 0,
            },
    {
        let n = self.entries.len();
        if n == 0 {
            return None;
        }
        let mut best: usize = 0;
        let mut k: usize = 1;
        while k < n
            invariant
                n == self.entries.len(),
                0 <= best < k <= n,
                forall|j: int|
                    0 <= j < k ==> #[trigger] self@.rows[j].created_at
                        <= self@.rows[best as int].created_at,
                forall|j: int|
                    0 <= j < best ==> #[trigger] self@.rows[j].created_at
                        < self@.rows[best as int].created_at,
            decreases n - k,
        {
            proof {
                assert(self@.rows[k as int] == self.entries@[k as int]@);
                assert(self@.rows[best as int] == self.entries@[best as int]@);
            }
            if self.entries[k].created_at > self.entries[best].created_at {
                best = k;
            }
            k = k + 1;
        }
        let e = self.entries[best].clone();
        proof {
            assert(self@.rows[best as int] == self.entries@[best as int]@);
            assert(e@ == self@.rows[best as int]);
        }
        Some(e)
    }

    /// Inserts with the current wall-clock time.  The caller must ensure, as
    /// `upsert_entry` does, that no row already carries the same text.
    pub fn insert_entry(&mut self, entry: NewClipboardEntry) -> (r: Result<i64, StoreError>)
        requires
            old(self).wf(),
            entry.text_content is Some ==> !has_text(old(self)@.rows, entry@.text_content->0),
        ensures
            final(self).wf(),
            exists|now: int| insert_post(old(self)@, entry@, now, final(self)@, r),
    {
        let now = crate::time::now_timestamp();
        let r = self.insert_entry_at(entry, now);
        proof {
            assert(insert_post(old(self)@, entry@, now as int, self@, r));
        }
        r
    }

    /// Upserts with the current wall-clock time.
    pub fn upsert_entry(&mut self, entry: NewClipboardEntry) -> (r: Result<i64, StoreError>)
        requires
            old(self).wf(),
        ensures
            final(self).wf(),
            exists|now: int| upsert_post(old(self)@, entry@, now, final(self)@, r),
    {
        let now = crate::time::now_timestamp();
        let r = self.upsert_entry_at(entry, now);
        proof {
            assert(upsert_post(old(self)@, entry@, now as int, self@, r));
        }
        r
    }

    /// Ordered retrieval with filters and pagination.  The returned rows are
    /// the filtered rows in the retrieval order — favorites first, then
    /// younger first, ties by insertion order — cut to the requested page.
    /// The text filter is an exact, case-sensitive substring match.
    pub fn search_entries(&self, params: ClipboardSearchParams) -> (r: Vec<ClipboardEntry>)
        requires
            self.wf(),
        ensures
            search_post(self@, params@, views_of(r@)),
            sorted_by(views_of(r@), entry_order()),
            forall|i: int|
                0 <= i < r@.len() ==> self@.rows.contains(#[trigger] views_of(r@)[i])
                    && row_matches(views_of(r@)[i], params@),
    {
        let ghost pre = self@;
        let ghost pred = matcher(params@);

        // Collect the rows that pass the filters, in store order.
        let n = self.entries.len();
        let mut cand: Vec<ClipboardEntry> = Vec::new();
        let mut k: usize = 0;
        proof {
            assert(cand@.map_values(|e: ClipboardEntry| e@) =~= pre.rows.take(0).filter(pred))
                by {
                reveal(Seq::filter);
            }
        }
        while k < n
            invariant
                n == self.entries.len(),
                self@ == pre,
                0 <= k <= n,
                cand@.map_values(|e: ClipboardEntry| e@) == pre.rows.take(k as int).filter(pred),
                pred == matcher(params@),
            decreases n - k,
        {
            let ghost prev = cand@.map_values(|e: ClipboardEntry| e@);
            proof {
                assert(self@.rows[k as int] == self.entries@[k as int]@);
                assert(pre.rows.take(k + 1).drop_last() =~= pre.rows.take(k as int));
                assert(pre.rows.take(k + 1).last() == pre.rows[k as int]);
                assert(pre.rows.take(k + 1).filter(pred) == if pred(pre.rows[k as int]) {
                    prev.push(pre.rows[k as int])
                } else {
                    prev
                }) by {
                    reveal(Seq::filter);
                }
            }
            let e = &self.entries[k];
            if matches_params(e, &params) {
                cand.push(e.clone());
                proof {
                    assert(cand@.map_values(|x: ClipboardEntry| x@) =~= prev.push(
                        pre.rows[k as int],
                    ));
                }
            }
            k = k + 1;
        }
        proof {
            assert(pre.rows.take(n as int) =~= pre.rows);
        }

        // Sort by the retrieval order.
        let sorted = sort_entries(cand);
        let ghost sorted_m = sorted@.map_values(|e: ClipboardEntry| e@);

        // Cut the requested page.
        let total = sorted.len();
        let off: usize = if params.offset < 0 {
            0
        } else if params.offset as u64 >= total as u64 {
            total
        } else {
            params.offset as usize
        };
        let avail = total - off;
        let lim: usize = if params.limit < 0 {
            avail
        } else if params.limit as u64 >= avail as u64 {
            avail
        } else {
            params.limit as usize
        };
        let mut out: Vec<ClipboardEntry> = Vec::new();
        let mut j: usize = 0;
        proof {
            assert(out@.map_values(|e: ClipboardEntry| e@) =~= sorted_m.subrange(
                off as int,
                off as int,
            ));
        }
        while j < lim
            invariant
                total == sorted@.len(),
                sorted_m == sorted@.map_values(|e: ClipboardEntry| e@),
                off + lim <= total,
                0 <= j <= lim,
                out@.map_values(|e: ClipboardEntry| e@) == sorted_m.subrange(
                    off as int,
                    off + j,
                ),
            decreases lim - j,
        {
            let ghost prev = out@.map_values(|e: ClipboardEntry| e@);
            proof {
                assert(sorted_m[off + j] == sorted@[off + j]@);
            }
            out.push(sorted[off + j].clone());
            proof {
                assert(out@.map_values(|e: ClipboardEntry| e@) =~= prev.push(sorted_m[off + j]));
                assert(sorted_m.subrange(off as int, off + j + 1) =~= prev.push(
                    sorted_m[off + j],
                ));
            }
            j = j + 1;
        }
        proof {
            let results = out@.map_values(|e: ClipboardEntry| e@);
            assert(results == page(sorted_m, params@.limit, params@.offset));
            assert(search_post(pre, params@, results));
            assert forall|i: int|
                0 <= i < results.len() implies pre.rows.contains(#[trigger] results[i])
                && row_matches(results[i], params@) by {
                let matched = pre.rows.filter(pred);
                assert(results[i] == sorted_m[off + i]);
                broadcast use vstd::seq_lib::group_to_multiset_ensures;

                assert(sorted_m.contains(sorted_m[off + i]));
                assert(matched.to_multiset().count(results[i]) > 0);
                assert(matched.contains(results[i]));
                let w = choose|w: int| 0 <= w < matched.len() && matched[w] == results[i];
                lemma_filter_preserves_row_props(pre.rows, pred, pre.next_id);
                pre.rows.lemma_filter_pred(pred, w);
            }
            assert forall|a: int, b: int|
                0 <= a < b < results.len() implies #[trigger] entry_order()(
                results[a],
                results[b],
            ) by {
                assert(results[a] == sorted_m[off + a]);
                assert(results[b] == sorted_m[off + b]);
            }
        }
        out
    }

    /// Eviction by age against the current wall-clock time.
    pub fn delete_old_entries(&mut self, days: i64) -> (r: u64)
        requires
            old(self).wf(),
            0 <= days,
            days * 86400 <= i64::MAX,
        ensures
            final(self).wf(),
            final(self)@.next_id == old(self)@.next_id,
            exists|cutoff: int| final(self)@.rows == old(self)@.rows.filter(keeps(cutoff)),
            r == old(self)@.rows.len() - final(self)@.rows.len(),
    {
        let secs = days * 86400;
        let now = crate::time::now_timestamp();
        let cutoff = match now.checked_sub(secs) {
            Some(c) => c,
            None => i64::MIN,
        };
        let r = self.delete_older_than(cutoff);
        proof {
            assert(self@.rows == old(self)@.rows.filter(keeps(cutoff as int)));
        }
        r
    }
}

/// Upserting preserves well-formedness of the store model.
pub proof fn lemma_upsert_preserves_model_wf(
    pre: StoreModel,
    e: NewEntryModel,
    now: int,
    post: StoreModel,
    r: Result<i64, StoreError>,
)
    requires
        model_wf(pre),
        upsert_post(pre, e, now, post, r),
    ensures
        model_wf(post),
{
    if e.text_content is Some && has_text(pre.rows, e.text_content->0) {
        let t = e.text_content->0;
        let i = text_index(pre.rows, t);
        assert(0 <= i < pre.rows.len() && pre.rows[i].text_content == Some(t));
        assert forall|a: int| 0 <= a < post.rows.len() implies #[trigger] post.rows[a].id
            == pre.rows[a].id && post.rows[a].text_content == pre.rows[a].text_content by {}
    } else {
        if pre.next_id < i64::MAX {
            assert forall|a: int, b: int|
                0 <= a < b < post.rows.len() && #[trigger] post.rows[a].text_content is Some implies post.rows[a].text_content
                != #[trigger] post.rows[b].text_content by {
                if b == post.rows.len() - 1 && post.rows[a].text_content == post.rows[b].text_content {
                    assert(pre.rows[a].text_content == e.text_content);
                    assert(has_text(pre.rows, e.text_content->0));
                }
            }
        }
    }
}

/// Capturing the same text twice stores it once: the second upsert of a text
/// returns the same row identity as the first, exactly one row with that
/// text exists afterwards, no row was added, and the favorite flag is
/// untouched by the second upsert.
pub proof fn lemma_upsert_same_text_twice(
    m0: StoreModel,
    e1: NewEntryModel,
    e2: NewEntryModel,
    t: Seq<char>,
    n1: int,
    n2: int,
    m1: StoreModel,
    r1: Result<i64, StoreError>,
    m2: StoreModel,
    r2: Result<i64, StoreError>,
)
    requires
        model_wf(m0),
        e1.text_content == Some(t),
        e2.text_content == Some(t),
        upsert_post(m0, e1, n1, m1, r1),
        r1 is Ok,
        upsert_post(m1, e2, n2, m2, r2),
    ensures
        r2 == Ok::<i64, StoreError>(r1->Ok_0),
        has_text(m2.rows, t),
        forall|i: int, j: int|
            0 <= i < m2.rows.len() && 0 <= j < m2.rows.len() && #[trigger] m2.rows[i].text_content
                == Some(t) && #[trigger] m2.rows[j].text_content == Some(t) ==> i == j,
        m2.rows.len() == m1.rows.len(),
        m2.rows[text_index(m2.rows, t)].favorite == m1.rows[text_index(m1.rows, t)].favorite,
{
    lemma_upsert_preserves_model_wf(m0, e1, n1, m1, r1);
    lemma_upsert_preserves_model_wf(m1, e2, n2, m2, r2);
    let ghost j0: int = if has_text(m0.rows, t) {
        text_index(m0.rows, t)
    } else {
        m0.rows.len() as int
    };
    if has_text(m0.rows, t) {
        let i = text_index(m0.rows, t);
        assert(0 <= i < m0.rows.len() && m0.rows[i].text_content == Some(t));
        assert(m1.rows[i].text_content == Some(t));
        assert(has_text(m1.rows, t));
        assert(m1.rows[i].id == m0.rows[i].id);
    } else {
        assert(m1.rows[j0].text_content == Some(t));
        assert(has_text(m1.rows, t));
    }
    let j = text_index(m1.rows, t);
    assert(0 <= j < m1.rows.len() && m1.rows[j].text_content == Some(t));
    assert(j == j0);
    assert(m1.rows[j].id == r1->Ok_0);
    assert(m2.rows == m1.rows.update(j, refreshed_row(m1.rows[j], e2, n2)));
    assert(m2.rows[j].text_content == Some(t));
    assert(has_text(m2.rows, t));
    let k = text_index(m2.rows, t);
    assert(0 <= k < m2.rows.len() && m2.rows[k].text_content == Some(t));
    assert(k == j);
    assert(m2.rows[k].favorite == m1.rows[j].favorite);
}

/// Toggling a row's favorite flag twice restores the store exactly, and the
/// second toggle reports the opposite state of the first.
pub proof fn lemma_toggle_involution(
    m0: StoreModel,
    id: int,
    m1: StoreModel,
    r1: Result<bool, StoreError>,
    m2: StoreModel,
    r2: Result<bool, StoreError>,
)
    requires
        model_wf(m0),
        toggle_post(m0, id, m1, r1),
        toggle_post(m1, id, m2, r2),
    ensures
        m2 == m0,
        r1 is Ok <==> r2 is Ok,
        r1 is Ok ==> r2 == Ok::<bool, StoreError>(!r1->Ok_0),
{
    if has_id(m0.rows, id) {
        let i = id_index(m0.rows, id);
        assert(0 <= i < m0.rows.len() && m0.rows[i].id == id);
        assert(m1.rows[i].id == id);
        assert(has_id(m1.rows, id));
        let j = id_index(m1.rows, id);
        assert(0 <= j < m1.rows.len() && m1.rows[j].id == id);
        assert(m1.rows[j].id == m0.rows[j].id);
        assert(j == i);
        assert(toggled_row(toggled_row(m0.rows[i])) == m0.rows[i]);
        assert(m2.rows =~= m0.rows);
        assert(m2 =~= m0);
    } else {
        assert(!has_id(m1.rows, id));
    }
}

/// Age-based eviction never removes a favorite row, whatever its age: every
/// favorite row of the store before eviction is still present afterwards.
pub proof fn lemma_evict_spares_favorites(m0: StoreModel, cutoff: int, m1: StoreModel, i: int)
    requires
        m1.rows == m0.rows.filter(keeps(cutoff)),
        0 <= i < m0.rows.len(),
        m0.rows[i].favorite,
    ensures
        m1.rows.contains(m0.rows[i]),
{
    assert(keeps(cutoff)(m0.rows[i]));
    m0.rows.lemma_filter_contains(keeps(cutoff), i);
}

/// Rows with distinct identities have only one ordered arrangement: two
/// sequences that are both ordered and hold the same rows are equal, so the
/// arrangement `search_post` speaks of is unique.
pub proof fn lemma_sorted_arrangement_unique(x: Seq<EntryModel>, y: Seq<EntryModel>)
    requires
        sorted_by(x, entry_order()),
        sorted_by(y, entry_order()),
        row_ids_unique(x),
        row_ids_unique(y),
        x.to_multiset() == y.to_multiset(),
    ensures
        x =~= y,
    decreases x.len(),
{
    broadcast use vstd::seq_lib::group_to_multiset_ensures;
    broadcast use vstd::multiset::group_multiset_axioms;

    lemma_entry_le_props();
    if x.len() == 0 || y.len() == 0 {
    } else {
        assert(x.contains(x[0]));
        assert(y.to_multiset().count(x[0]) > 0);
        assert(y.contains(x[0]));
        let i = choose|i: int| 0 <= i < y.len() && y[i] == x[0];
        assert(y.contains(y[0]));
        assert(x.to_multiset().count(y[0]) > 0);
        assert(x.contains(y[0]));
        let j = choose|j: int| 0 <= j < x.len() && x[j] == y[0];
        assert(entry_le(x[0], y[0])) by {
            if j > 0 {
                assert(entry_order()(x[0], x[j]));
            }
        }
        assert(entry_le(y[0], x[0])) by {
            if i > 0 {
                assert(entry_order()(y[0], y[i]));
            }
        }
        assert(x[0].id == y[0].id);
        assert(y[i].id == y[0].id);
        assert(i == 0);
        assert(y[0] == x[0]);
        let xr = x.drop_first();
        let yr = y.drop_first();
        assert(xr =~= x.remove(0));
        assert(x.remove(0).to_multiset() =~= x.to_multiset().remove(x[0]));
        assert(yr =~= y.remove(0));
        assert(y.remove(0).to_multiset() =~= y.to_multiset().remove(y[0]));
        assert forall|a: int, b: int| 0 <= a < b < xr.len() implies #[trigger] entry_order()(
            xr[a],
            xr[b],
        ) by {
            assert(entry_order()(x[a + 1], x[b + 1]));
        }
        assert forall|a: int, b: int| 0 <= a < b < yr.len() implies #[trigger] entry_order()(
            yr[a],
            yr[b],
        ) by {
            assert(entry_order()(y[a + 1], y[b + 1]));
        }
        assert forall|a: int, b: int|
            0 <= a < b < xr.len() implies #[trigger] xr[a].id != #[trigger] xr[b].id by {
            assert(x[a + 1].id != x[b + 1].id);
        }
        assert forall|a: int, b: int|
            0 <= a < b < yr.len() implies #[trigger] yr[a].id != #[trigger] yr[b].id by {
            assert(y[a + 1].id != y[b + 1].id);
        }
        lemma_sorted_arrangement_unique(xr, yr);
        assert(x =~= Seq::<EntryModel>::empty().push(x[0]) + xr);
        assert(y =~= Seq::<EntryModel>::empty().push(y[0]) + yr);
    }
}

/// In an ordered result list, favorites come strictly before non-favorites;
/// within a group rows are ordered by non-increasing timestamp; remaining
/// ties keep insertion order.
pub proof fn lemma_search_order(results: Seq<EntryModel>, i: int, j: int)
    requires
        sorted_by(results, entry_order()),
        0 <= i < j < results.len(),
    ensures
        results[j].favorite ==> results[i].favorite,
        results[i].favorite == results[j].favorite ==> results[i].created_at
            >= results[j].created_at,
        results[i].favorite == results[j].favorite && results[i].created_at
            == results[j].created_at ==> results[i].id <= results[j].id,
{
    assert(entry_order()(results[i], results[j]));
    assert(entry_le(results[i], results[j]));
}

} // verus!
