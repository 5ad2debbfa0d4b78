//! The change detector: decides, once per poll tick, whether the current
//! clipboard reading is a new value worth capturing, and performs the store
//! write.  The host runs the timer and the clipboard read; every decision is
//! made here.

use vstd::prelude::*;
use crate::models::{opt_view, NewClipboardEntry, NewEntryModel};
use crate::store::{
    has_text, lemma_upsert_preserves_model_wf, model_wf, text_index, upsert_post, ContentStore,
    StoreError, StoreModel,
};
use crate::text::{is_blank, is_blank_str, str_eq};
use crate::time::now_timestamp;

verus! {

/// Spec view of an optional string slice.
pub open spec fn opt_str_view(o: Option<&str>) -> Option<Seq<char>> {
    match o {
        Some(s) => Some(s@),
        None => None,
    }
}

/// Whether a clipboard reading should be captured: it must not be blank, and
/// it must differ from the last observed value.  This is the sole
/// deduplication at the polling layer; the store's upsert deduplicates again
/// by content.
pub open spec fn spec_should_save(content: Seq<char>, last: Option<Seq<char>>) -> bool {
    &&& !is_blank(content)
    &&& last != Some(content)
}

/// A reading equal to the last observed value is never captured again:
/// capturing a text and then reading the same text is a no-op at the
/// detector, so a repeated capture cannot create a second row.
pub proof fn lemma_repeat_reading_skipped(t: Seq<char>)
    ensures
        !spec_should_save(t, Some(t)),
{
}

/// A blank reading — empty or whitespace-only — is never captured, whatever
/// was observed before: no store write and no listener notification happen.
pub proof fn lemma_blank_never_captured(t: Seq<char>, last: Option<Seq<char>>)
    requires
        is_blank(t),
    ensures
        !spec_should_save(t, last),
{
}

/// Whether `content` should be captured given the last observed value.
pub fn should_save_content(content: &str, last_content: Option<&str>) -> (r: bool)
    ensures
        r == spec_should_save(content@, opt_str_view(last_content)),
{
    if is_blank_str(content) {
        return false;
    }
    match last_content {
        Some(last) => !str_eq(last, content),
        None => true,
    }
}

/// What one poll tick did.
#[derive(Debug, Clone, Copy, PartialEq, Eq, Structural)]
pub enum TickOutcome {
    /// Nothing to capture: no reading, a blank value, or the value last seen.
    Skipped,
    /// Captured and stored under the returned row identity.
    Captured(i64),
    /// Captured — the last observed value advanced — but the store write
    /// failed; the polling loop goes on.
    SaveFailed,
}

/// What one poll tick guarantees.  A missing, blank or repeated reading
/// changes nothing; otherwise the reading becomes the last observed value and
/// is upserted, stamped `now`, with the capturing application attached.
pub open spec fn tick_post(
    pre_last: Option<String>,
    pre_store: StoreModel,
    reading: Option<String>,
    source: Option<String>,
    now: int,
    post_last: Option<String>,
    post_store: StoreModel,
    r: TickOutcome,
) -> bool {
    if reading is Some && spec_should_save(reading->0@, opt_view(pre_last)) {
        let e = NewEntryModel {
            content_type: "text"@,
            text_content: Some(reading->0@),
            file_path: None,
            metadata: None,
            source_app: opt_view(source),
        };
        &&& post_last == reading
        &&& match r {
            TickOutcome::Captured(id) => upsert_post(
                pre_store,
                e,
                now,
                post_store,
                Ok::<i64, StoreError>(id),
            ),
            TickOutcome::SaveFailed => upsert_post(
                pre_store,
                e,
                now,
                post_store,
                Err::<i64, StoreError>(StoreError::Storage),
            ),
            TickOutcome::Skipped => false,
        }
    } else {
        &&& post_last == pre_last
        &&& post_store == pre_store
        &&& r == TickOutcome::Skipped
    }
}

/// The single-slot cache of the last observed clipboard value, plus the
/// capture decision made on every tick.
pub struct ClipboardMonitor {
    /// The most recently captured text; `None` until the first capture.
    pub last_content: Option<String>,
}

impl ClipboardMonitor {
    /// A detector that has seen nothing yet.
    pub fn new() -> (m: Self)
        ensures
            m.last_content is None,
    {
        ClipboardMonitor { last_content: None }
    }

    /// One tick of the polling loop, against an explicit clock reading:
    /// decides whether `reading` is a new value and, if so, records it and
    /// upserts it into the store.  A failed reading (`None`) is skipped
    /// silently; a failed store write is reported but does not disturb the
    /// advanced last-observed value.
    pub fn poll_tick_at(
        &mut self,
        reading: Option<String>,
        source_app: Option<String>,
        store: &mut ContentStore,
        now: i64,
    ) -> (r: TickOutcome)
        requires
            old(store).wf(),
        ensures
            final(store).wf(),
            tick_post(
                old(self).last_content,
                old(store)@,
                reading,
                source_app,
                now as int,
                final(self).last_content,
                final(store)@,
                r,
            ),
    {
        let text = match reading {
            Some(t) => t,
            None => {
                return TickOutcome::Skipped;
            },
        };
        let save = match &self.last_content {
            Some(last) => should_save_content(text.as_str(), Some(last.as_str())),
            None => should_save_content(text.as_str(), None),
        };
        if !save {
            return TickOutcome::Skipped;
        }
        self.last_content = Some(text.clone());
        let entry = NewClipboardEntry::new_text_with_source(text, source_app);
        match store.upsert_entry_at(entry, now) {
            Ok(id) => TickOutcome::Captured(id),
            Err(_) => TickOutcome::SaveFailed,
        }
    }

    /// One tick of the polling loop against the wall clock.
    pub fn poll_tick(
        &mut self,
        reading: Option<String>,
        source_app: Option<String>,
        store: &mut ContentStore,
    ) -> (r: TickOutcome)
        requires
            old(store).wf(),
        ensures
            final(store).wf(),
            exists|now: int|
                tick_post(
                    old(self).last_content,
                    old(store)@,
                    reading,
                    source_app,
                    now,
                    final(self).last_content,
                    final(store)@,
                    r,
                ),
    {
        let ghost reading_g = reading;
        let ghost source_g = source_app;
        let now = now_timestamp();
        let r = self.poll_tick_at(reading, source_app, store, now);
        proof {
            assert(tick_post(
                old(self).last_content,
                old(store)@,
                reading_g,
                source_g,
                now as int,
                self.last_content,
                store@,
                r,
            ));
        }
        r
    }
}

/// Capturing a non-blank text and then immediately reading the same text
/// again stores it once: the second tick is skipped by the detector, so
/// exactly one row with that text exists and its favorite flag is untouched.
pub proof fn lemma_capture_twice(
    last0: Option<String>,
    s0: StoreModel,
    t: String,
    src1: Option<String>,
    src2: Option<String>,
    n1: int,
    n2: int,
    last1: Option<String>,
    s1: StoreModel,
    r1: TickOutcome,
    last2: Option<String>,
    s2: StoreModel,
    r2: TickOutcome,
)
    requires
        model_wf(s0),
        tick_post(last0, s0, Some(t), src1, n1, last1, s1, r1),
        r1 matches TickOutcome::Captured(_),
        tick_post(last1, s1, Some(t), src2, n2, last2, s2, r2),
    ensures
        r2 == TickOutcome::Skipped,
        s2 == s1,
        last2 == last1,
        model_wf(s2),
        has_text(s2.rows, t@),
        forall|i: int, j: int|
            0 <= i < s2.rows.len() && 0 <= j < s2.rows.len() && #[trigger] s2.rows[i].text_content
                == Some(t@) && #[trigger] s2.rows[j].text_content == Some(t@) ==> i == j,
{
    let e = NewEntryModel {
        content_type: "text"@,
        text_content: Some(t@),
        file_path: None,
        metadata: None,
        source_app: opt_view(src1),
    };
    let id = match r1 {
        TickOutcome::Captured(id) => id,
        _ => 0,
    };
    lemma_upsert_preserves_model_wf(s0, e, n1, s1, Ok::<i64, StoreError>(id));
    if has_text(s0.rows, t@) {
        let i = text_index(s0.rows, t@);
        assert(0 <= i < s0.rows.len() && s0.rows[i].text_content == Some(t@));
        assert(s1.rows[i].text_content == Some(t@));
        assert(has_text(s1.rows, t@));
    } else {
        assert(s1.rows[s0.rows.len() as int].text_content == Some(t@));
        assert(has_text(s1.rows, t@));
    }
    assert(last1 == Some(t));
    assert(!spec_should_save(t@, opt_view(last1)));
}

/// A frontmost-application reading is accepted only when it is non-empty and
/// is not one of this application's own identifiers.
pub open spec fn name_listed(names: Seq<String>, n: Seq<char>) -> bool {
    exists|i: int| 0 <= i < names.len() && #[trigger] names[i]@ == n
}

/// Sanitises a frontmost-application reading: an empty name, or one of this
/// application's own identifiers, counts as no reading — the window must
/// never try to hand focus back to itself.
pub fn accept_frontmost_name(name: String, own_names: &Vec<String>) -> (r: Option<String>)
    ensures
        r == (if name@.len() > 0 && !name_listed(own_names@, name@) {
            Some(name)
        } else {
            None::<String>
        }),
{
    if name.as_str().is_empty() {
        return None;
    }
    let n = own_names.len();
    let mut i: usize = 0;
    while i < n
        invariant
            n == own_names@.len(),
            0 <= i <= n,
            forall|j: int| 0 <= j < i ==> #[trigger] own_names@[j]@ != name@,
        decreases n - i,
    {
        if str_eq(own_names[i].as_str(), name.as_str()) {
            return None;
        }
        i = i + 1;
    }
    Some(name)
}

} // verus!
