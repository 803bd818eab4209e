//! The restore engine: walking a loaded store in order and putting each
//! saved modification time back, gated on the file's content still
//! matching the saved fingerprint, so that changed content is never
//! silently re-dated.

use vstd::prelude::*;
use crate::hashing::{content_hash_hex, spec_content_hash};
use crate::record::{FileRecord, RecordModel, RecordStore, StoreModel};

verus! {

/// What the pass found on disk for one recorded path.
pub enum CurrentContent {
    /// The path no longer exists.
    Missing,
    /// The path exists but its content could not be read or hashed.
    Unreadable,
    /// The content bytes, read now.
    Bytes(Vec<u8>),
}

/// The mathematical value of a [`CurrentContent`].
pub enum ContentView {
    Missing,
    Unreadable,
    Bytes(Seq<u8>),
}

impl View for CurrentContent {
    type V = ContentView;

    open spec fn view(&self) -> ContentView {
        match self {
            CurrentContent::Missing => ContentView::Missing,
            CurrentContent::Unreadable => ContentView::Unreadable,
            CurrentContent::Bytes(b) => ContentView::Bytes(b@),
        }
    }
}

/// What the pass does for one entry.
pub enum RestoreAction {
    /// Write the saved time back onto the file.
    SetTime { mtime: i64, mtime_nano: u32 },
    /// The path no longer exists: skipped silently, deletion between save
    /// and restore is expected and benign.
    SkipMissing,
    /// The content could not be read: skipped, reported under verbose.
    SkipUnreadable,
    /// The content changed since save and force mode is off: skipped,
    /// the mismatch reported under verbose.
    SkipMismatch,
}

/// The decision for one entry: a missing path or unreadable content is
/// skipped; otherwise the saved time is written back exactly when the
/// content still hashes to the saved fingerprint, or force mode bypasses
/// the verification.
pub open spec fn spec_decision(rec: RecordModel, current: ContentView, force: bool) -> RestoreAction {
    match current {
        ContentView::Missing => RestoreAction::SkipMissing,
        ContentView::Unreadable => RestoreAction::SkipUnreadable,
        ContentView::Bytes(b) => if force || spec_content_hash(b) == rec.hash {
            RestoreAction::SetTime { mtime: rec.mtime as i64, mtime_nano: rec.mtime_nano as u32 }
        } else {
            RestoreAction::SkipMismatch
        },
    }
}

/// Decide what to do for one record given what is on disk now.
pub fn restore_decision(record: &FileRecord, current: &CurrentContent, force: bool) -> (r:
    RestoreAction)
    ensures
        r == spec_decision(record.model(), current@, force),
{
    match current {
        CurrentContent::Missing => RestoreAction::SkipMissing,
        CurrentContent::Unreadable => RestoreAction::SkipUnreadable,
        CurrentContent::Bytes(b) => {
            let hash = content_hash_hex(b.as_slice());
            if force || hash.eq(&record.hash) {
                RestoreAction::SetTime { mtime: record.mtime, mtime_nano: record.mtime_nano }
            } else {
                RestoreAction::SkipMismatch
            }
        },
    }
}

/// Whether one entry counts as restored: its decision was to write the
/// time back and the write succeeded. Every successful write counts,
/// whether or not the time actually changed.
pub open spec fn spec_applied(rec: RecordModel, current: ContentView, force: bool, write_ok: bool) -> bool {
    spec_decision(rec, current, force) is SetTime && write_ok
}

/// The restored count over a whole pass, entry by entry in store order.
pub open spec fn spec_restored_count(
    entries: StoreModel,
    contents: Seq<ContentView>,
    write_oks: Seq<bool>,
    force: bool,
) -> nat
    decreases entries.len(),
{
    if entries.len() == 0 {
        0
    } else {
        (if spec_applied(entries[0].1, contents[0], force, write_oks[0]) {
            1nat
        } else {
            0nat
        }) + spec_restored_count(
            entries.drop_first(),
            contents.drop_first(),
            write_oks.drop_first(),
            force,
        )
    }
}

/// A restore pass in progress: the loaded store, the force flag, and how
/// far it has come.
pub struct RestoreEngine {
    store: RecordStore,
    force: bool,
    position: usize,
    restored: usize,
}

impl RestoreEngine {
    /// The entries of the loaded store, in pass order.
    pub closed spec fn entries(self) -> StoreModel {
        self.store@
    }

    pub closed spec fn force_mode(self) -> bool {
        self.force
    }

    pub closed spec fn position_of(self) -> int {
        self.position as int
    }

    pub closed spec fn restored_of(self) -> int {
        self.restored as int
    }

    pub open spec fn wf(self) -> bool {
        &&& 0 <= self.restored_of() <= self.position_of() <= self.entries().len()
    }

    /// Begin a pass over a loaded store.
    pub fn new(store: RecordStore, force: bool) -> (e: RestoreEngine)
        ensures
            e.wf(),
            e.entries() == store@,
            e.force_mode() == force,
            e.position_of() == 0,
            e.restored_of() == 0,
    {
        RestoreEngine { store, force, position: 0, restored: 0 }
    }

    /// Whether every entry has been processed.
    pub fn finished(&self) -> (r: bool)
        ensures
            r == (self.position_of() == self.entries().len()),
    {
        self.position == self.store.len()
    }

    /// The path of the entry up next.
    pub fn next_path(&self) -> (r: &String)
        requires
            self.position_of() < self.entries().len(),
        ensures
            r@ == self.entries()[self.position_of()].0,
    {
        &self.store.entry_at(self.position).path
    }

    /// The saved record of the entry up next.
    pub fn next_record(&self) -> (r: &FileRecord)
        requires
            self.position_of() < self.entries().len(),
        ensures
            r.model() == self.entries()[self.position_of()].1,
    {
        &self.store.entry_at(self.position).record
    }

    /// Decide the action for the entry up next, given what is on disk.
    pub fn decide(&self, current: &CurrentContent) -> (r: RestoreAction)
        requires
            self.position_of() < self.entries().len(),
        ensures
            r == spec_decision(self.entries()[self.position_of()].1, current@, self.force_mode()),
    {
        restore_decision(&self.store.entry_at(self.position).record, current, self.force)
    }

    /// Step past the entry up next; `applied` says whether its saved time
    /// was written back successfully, and every such write is counted.
    pub fn advance(&mut self, applied: bool)
        requires
            old(self).wf(),
            old(self).position_of() < old(self).entries().len(),
        ensures
            final(self).wf(),
            final(self).entries() == old(self).entries(),
            final(self).force_mode() == old(self).force_mode(),
            final(self).position_of() == old(self).position_of() + 1,
            final(self).restored_of() == old(self).restored_of() + (if applied {
                1int
            } else {
                0int
            }),
    {
        let n = self.store.len();
        assert(self.position < n);
        self.position = self.position + 1;
        if applied {
            self.restored = self.restored + 1;
        }
    }

    /// How many restorations this pass has performed.
    pub fn restored_count(&self) -> (n: usize)
        ensures
            n == self.restored_of(),
    {
        self.restored
    }
}

/// The hash gate: content that hashes differently from the saved
/// fingerprint is never re-dated without force mode, and force mode
/// writes the saved time back regardless of the mismatch.
pub proof fn lemma_hash_gate(rec: RecordModel, b: Seq<u8>)
    ensures
        spec_content_hash(b) != rec.hash ==> spec_decision(rec, ContentView::Bytes(b), false)
            == RestoreAction::SkipMismatch,
        spec_decision(rec, ContentView::Bytes(b), true) == (RestoreAction::SetTime {
            mtime: rec.mtime as i64,
            mtime_nano: rec.mtime_nano as u32,
        }),
{
}

/// Round-trip identity: a record saved from some content bytes, restored
/// over those same bytes, always yields the saved time back, force mode
/// or not.
pub proof fn lemma_unchanged_content_restores(
    mtime: i64,
    mtime_nano: u32,
    b: Seq<u8>,
    force: bool,
)
    ensures
        spec_decision(
            RecordModel {
                mtime: mtime as int,
                mtime_nano: mtime_nano as int,
                hash: spec_content_hash(b),
            },
            ContentView::Bytes(b),
            force,
        ) == (RestoreAction::SetTime { mtime, mtime_nano }),
{
}

/// Missing-file tolerance: an entry whose path no longer exists
/// contributes nothing to the restored count and leaves every other
/// entry's contribution unchanged.
pub proof fn lemma_missing_skipped(
    entries: StoreModel,
    contents: Seq<ContentView>,
    write_oks: Seq<bool>,
    force: bool,
    i: int,
)
    requires
        entries.len() == contents.len(),
        entries.len() == write_oks.len(),
        0 <= i < entries.len(),
        contents[i] is Missing,
    ensures
        spec_restored_count(entries, contents, write_oks, force) == spec_restored_count(
            entries.remove(i),
            contents.remove(i),
            write_oks.remove(i),
            force,
        ),
    decreases entries.len(),
{
    if i == 0 {
        assert(!spec_applied(entries[0].1, contents[0], force, write_oks[0]));
        assert(entries.remove(0) =~= entries.drop_first());
        assert(contents.remove(0) =~= contents.drop_first());
        assert(write_oks.remove(0) =~= write_oks.drop_first());
    } else {
        lemma_missing_skipped(
            entries.drop_first(),
            contents.drop_first(),
            write_oks.drop_first(),
            force,
            i - 1,
        );
        assert(entries.remove(i).drop_first() =~= entries.drop_first().remove(i - 1));
        assert(contents.remove(i).drop_first() =~= contents.drop_first().remove(i - 1));
        assert(write_oks.remove(i).drop_first() =~= write_oks.drop_first().remove(i - 1));
        assert(entries.remove(i)[0] == entries[0]);
        assert(contents.remove(i)[0] == contents[0]);
        assert(write_oks.remove(i)[0] == write_oks[0]);
    }
}

} // verus!
