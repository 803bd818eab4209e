//! The record store: an ordered mapping from canonical absolute path to a
//! saved file record, with keys kept unique and in strict lexicographic
//! order so that the serialized output is reproducible across runs.

use vstd::prelude::*;
use crate::strutil::{
    str_lt, CharOrder, str_compare, lemma_str_lt_total, lemma_str_lt_transitive,
    lemma_str_lt_asymmetric, lemma_str_lt_irreflexive,
};

verus! {

/// One saved observation of a file: its modification time (POSIX epoch
/// seconds plus a sub-second nanosecond component) and a hexadecimal
/// fingerprint of its content at the moment the time was read.
pub struct FileRecord {
    pub mtime: i64,
    pub mtime_nano: u32,
    pub hash: String,
}

/// The mathematical value of a [`FileRecord`].
pub struct RecordModel {
    pub mtime: int,
    pub mtime_nano: int,
    pub hash: Seq<char>,
}

/// A well-formed record model: a modification time that fits a signed
/// 64-bit count of seconds and a valid nanosecond component.
pub open spec fn record_model_wf(r: RecordModel) -> bool {
    &&& i64::MIN <= r.mtime <= i64::MAX
    &&& 0 <= r.mtime_nano < 1_000_000_000
}

impl FileRecord {
    /// A record is well formed when its sub-second component is a valid
    /// nanosecond count.
    pub open spec fn wf(self) -> bool {
        self.mtime_nano < 1_000_000_000
    }

    pub open spec fn model(self) -> RecordModel {
        RecordModel {
            mtime: self.mtime as int,
            mtime_nano: self.mtime_nano as int,
            hash: self.hash@,
        }
    }
}

/// One store entry: a canonical absolute path and the record saved for it.
pub struct StoreEntry {
    pub path: String,
    pub record: FileRecord,
}

impl StoreEntry {
    pub open spec fn model(self) -> (Seq<char>, RecordModel) {
        (self.path@, self.record.model())
    }
}

/// The mathematical value of a store: its entries in output order.
pub type StoreModel = Seq<(Seq<char>, RecordModel)>;

/// Whether a store model holds some record under the given key.
pub open spec fn store_contains(m: StoreModel, key: Seq<char>) -> bool {
    exists|i: int| 0 <= i < m.len() && m[i].0 == key
}

/// Keys strictly ascending in lexicographic order; in particular, unique.
pub open spec fn store_sorted(m: StoreModel) -> bool {
    forall|i: int, j: int| 0 <= i < j < m.len() ==> str_lt(m[i].0, m[j].0)
}

/// A well-formed store model: sorted unique keys, well-formed records.
pub open spec fn store_wf(m: StoreModel) -> bool {
    &&& store_sorted(m)
    &&& forall|i: int| 0 <= i < m.len() ==> record_model_wf(#[trigger] m[i].1)
}

/// Insertion into an ordered store model: the new record lands at its
/// ordered position, replacing any record already under the same key.
pub open spec fn store_insert(m: StoreModel, key: Seq<char>, rec: RecordModel) -> StoreModel
    decreases m.len(),
{
    if m.len() == 0 {
        seq![(key, rec)]
    } else if str_lt(key, m[0].0) {
        seq![(key, rec)] + m
    } else if key == m[0].0 {
        seq![(key, rec)] + m.drop_first()
    } else {
        seq![m[0]] + store_insert(m.drop_first(), key, rec)
    }
}

/// Every key of the inserted store is the new key or one of the old keys,
/// and the new key is present.
pub proof fn lemma_store_insert_keys(m: StoreModel, key: Seq<char>, rec: RecordModel)
    ensures
        store_contains(store_insert(m, key, rec), key),
        forall|i: int|
            0 <= i < store_insert(m, key, rec).len() ==> store_insert(m, key, rec)[i].0 == key
                || store_contains(m, #[trigger] store_insert(m, key, rec)[i].0),
        forall|k2: Seq<char>|
            #[trigger] store_contains(store_insert(m, key, rec), k2) <==> k2 == key
                || store_contains(m, k2),
    decreases m.len(),
{
    let out = store_insert(m, key, rec);
    if m.len() == 0 {
        assert(out[0].0 == key);
    } else if str_lt(key, m[0].0) {
        assert(out[0].0 == key);
        assert forall|i: int| 0 <= i < out.len() implies out[i].0 == key || store_contains(
            m,
            out[i].0,
        ) by {
            if i > 0 {
                assert(out[i] == m[i - 1]);
            }
        }
        assert forall|k2: Seq<char>| store_contains(m, k2) implies store_contains(out, k2) by {
            let i = choose|i: int| 0 <= i < m.len() && m[i].0 == k2;
            assert(out[i + 1] == m[i]);
        }
    } else if key == m[0].0 {
        assert(out[0].0 == key);
        assert forall|i: int| 0 <= i < out.len() implies out[i].0 == key || store_contains(
            m,
            out[i].0,
        ) by {
            if i > 0 {
                assert(out[i] == m[i]);
            }
        }
        assert forall|k2: Seq<char>| store_contains(m, k2) implies store_contains(out, k2) by {
            let i = choose|i: int| 0 <= i < m.len() && m[i].0 == k2;
            if i > 0 {
                assert(out[i] == m[i]);
            } else {
                assert(out[0].0 == key);
            }
        }
    } else {
        lemma_store_insert_keys(m.drop_first(), key, rec);
        let rest = store_insert(m.drop_first(), key, rec);
        assert(out == seq![m[0]] + rest);
        let wi = choose|i: int| 0 <= i < rest.len() && rest[i].0 == key;
        assert(out[wi + 1] == rest[wi]);
        assert(store_contains(out, key));
        assert forall|i: int| 0 <= i < out.len() implies out[i].0 == key || store_contains(
            m,
            out[i].0,
        ) by {
            if i == 0 {
                assert(out[0] == m[0]);
            } else {
                assert(out[i] == rest[i - 1]);
                if rest[i - 1].0 != key {
                    assert(store_contains(m.drop_first(), rest[i - 1].0));
                    let j = choose|j: int|
                        0 <= j < m.drop_first().len() && m.drop_first()[j].0 == rest[i - 1].0;
                    assert(m[j + 1] == m.drop_first()[j]);
                }
            }
        }
        assert forall|k2: Seq<char>| store_contains(m, k2) implies store_contains(out, k2) by {
            let i = choose|i: int| 0 <= i < m.len() && m[i].0 == k2;
            if i == 0 {
                assert(out[0] == m[0]);
            } else {
                assert(m.drop_first()[i - 1] == m[i]);
                assert(store_contains(m.drop_first(), k2));
                assert(store_contains(rest, k2));
                let j = choose|j: int| 0 <= j < rest.len() && rest[j].0 == k2;
                assert(out[j + 1] == rest[j]);
            }
        }
    }
}

/// Insertion preserves well-formedness, and grows the store by one entry
/// exactly when the key was absent.
pub proof fn lemma_store_insert_wf(m: StoreModel, key: Seq<char>, rec: RecordModel)
    requires
        store_wf(m),
        record_model_wf(rec),
    ensures
        store_wf(store_insert(m, key, rec)),
        store_insert(m, key, rec).len() == if store_contains(m, key) {
            m.len()
        } else {
            m.len() + 1
        },
    decreases m.len(),
{
    let out = store_insert(m, key, rec);
    if m.len() == 0 {
        assert(!store_contains(m, key));
    } else if str_lt(key, m[0].0) {
        assert forall|i: int, j: int| 0 <= i < j < out.len() implies str_lt(
            out[i].0,
            out[j].0,
        ) by {
            if i == 0 {
                assert(out[j] == m[j - 1]);
                if j == 1 {
                } else {
                    lemma_str_lt_transitive(key, m[0].0, m[j - 1].0);
                }
            } else {
                assert(out[i] == m[i - 1]);
                assert(out[j] == m[j - 1]);
            }
        }
        assert forall|i: int| 0 <= i < out.len() implies record_model_wf(out[i].1) by {
            if i > 0 {
                assert(out[i] == m[i - 1]);
            }
        }
        if store_contains(m, key) {
            let i = choose|i: int| 0 <= i < m.len() && m[i].0 == key;
            if i == 0 {
                lemma_str_lt_asymmetric(key, m[0].0);
            } else {
                lemma_str_lt_transitive(key, m[0].0, m[i].0);
                lemma_str_lt_asymmetric(key, m[i].0);
            }
        }
    } else if key == m[0].0 {
        assert forall|i: int, j: int| 0 <= i < j < out.len() implies str_lt(
            out[i].0,
            out[j].0,
        ) by {
            if i == 0 {
                assert(out[j] == m[j]);
            } else {
                assert(out[i] == m[i]);
                assert(out[j] == m[j]);
            }
        }
        assert forall|i: int| 0 <= i < out.len() implies record_model_wf(out[i].1) by {
            if i > 0 {
                assert(out[i] == m[i]);
            }
        }
        assert(store_contains(m, key));
    } else {
        lemma_str_lt_total(key, m[0].0);
        assert(str_lt(m[0].0, key));
        lemma_store_insert_wf(m.drop_first(), key, rec);
        lemma_store_insert_keys(m.drop_first(), key, rec);
        let rest = store_insert(m.drop_first(), key, rec);
        assert forall|i: int, j: int| 0 <= i < j < out.len() implies str_lt(
            out[i].0,
            out[j].0,
        ) by {
            if i == 0 {
                assert(out[j] == rest[j - 1]);
                if rest[j - 1].0 == key {
                } else {
                    assert(store_contains(m.drop_first(), rest[j - 1].0));
                    let w = choose|w: int|
                        0 <= w < m.drop_first().len() && m.drop_first()[w].0 == rest[j - 1].0;
                    assert(m[w + 1] == m.drop_first()[w]);
                    assert(str_lt(m[0].0, m[w + 1].0));
                }
            } else {
                assert(out[i] == rest[i - 1]);
                assert(out[j] == rest[j - 1]);
            }
        }
        assert forall|i: int| 0 <= i < out.len() implies record_model_wf(out[i].1) by {
            if i == 0 {
                assert(out[0] == m[0]);
            } else {
                assert(out[i] == rest[i - 1]);
            }
        }
        if store_contains(m, key) {
            let i = choose|i: int| 0 <= i < m.len() && m[i].0 == key;
            assert(i > 0);
            assert(m.drop_first()[i - 1] == m[i]);
            assert(store_contains(m.drop_first(), key));
        } else {
            if store_contains(m.drop_first(), key) {
                let i = choose|i: int|
                    0 <= i < m.drop_first().len() && m.drop_first()[i].0 == key;
                assert(m[i + 1] == m.drop_first()[i]);
                assert(store_contains(m, key));
            }
        }
    }
}

/// The ordered store of saved records.
pub struct RecordStore {
    entries: Vec<StoreEntry>,
}

impl View for RecordStore {
    type V = StoreModel;

    closed spec fn view(&self) -> StoreModel {
        Seq::new(self.entries@.len(), |i: int| self.entries@[i].model())
    }
}

impl RecordStore {
    /// The store invariant: sorted unique keys, well-formed records.
    pub open spec fn wf(self) -> bool {
        store_wf(self@)
    }

    pub fn new() -> (r: RecordStore)
        ensures
            r.wf(),
            r@ == Seq::<(Seq<char>, RecordModel)>::empty(),
    {
        let r = RecordStore { entries: Vec::new() };
        proof {
            assert(r@ =~= Seq::<(Seq<char>, RecordModel)>::empty());
        }
        r
    }

    pub fn len(&self) -> (n: usize)
        ensures
            n == self@.len(),
    {
        self.entries.len()
    }

    /// The entry at an output position, in serialized order.
    pub fn entry_at(&self, i: usize) -> (e: &StoreEntry)
        requires
            i < self@.len(),
        ensures
            e.model() == self@[i as int],
    {
        &self.entries[i]
    }

    /// Insert a record under a canonical path, keeping order; a record
    /// already saved under the same path is replaced.
    pub fn insert(&mut self, path: String, record: FileRecord)
        requires
            old(self).wf(),
            record.wf(),
        ensures
            final(self).wf(),
            final(self)@ == store_insert(old(self)@, path@, record.model()),
    {
        let ghost m = self@;
        let ghost key = path@;
        let ghost rec = record.model();
        let mut i: usize = 0;
        let n = self.entries.len();
        let mut replace = false;
        let mut done = false;
        while i < n && !done
            invariant
                0 <= i <= n,
                n == self.entries@.len(),
                self@ == m,
                key == path@,
                rec == record.model(),
                store_wf(m),
                record.wf(),
                forall|j: int| 0 <= j < i ==> str_lt(#[trigger] m[j].0, key),
                done ==> i < n,
                done && replace ==> m[i as int].0 == key,
                done && !replace ==> str_lt(key, m[i as int].0),
                !done ==> !replace,
            decreases 2 * (n - i) + (if done {
                0int
            } else {
                1int
            }),
        {
            let order = str_compare(self.entries[i].path.as_str(), path.as_str());
            if order == CharOrder::Same {
                replace = true;
                done = true;
            } else if order == CharOrder::Above {
                done = true;
            } else {
                i += 1;
            }
        }
        proof {
            lemma_store_insert_wf(m, key, rec);
            lemma_store_insert_split(m, key, rec, i as int);
        }
        if replace {
            let ghost pos = i as int;
            self.entries.set(i, StoreEntry { path, record });
            proof {
                assert(self@ =~= m.subrange(0, pos) + seq![(key, rec)] + m.subrange(
                    pos + 1,
                    m.len() as int,
                ));
            }
        } else {
            let ghost pos = i as int;
            self.entries.insert(i, StoreEntry { path, record });
            proof {
                assert(self@ =~= m.subrange(0, pos) + seq![(key, rec)] + m.subrange(
                    pos,
                    m.len() as int,
                ));
                lemma_str_lt_irreflexive(key);
            }
        }
    }
}

/// Where the scan stopped determines the shape of the inserted store:
/// with everything before `pos` below the key, insertion splices the new
/// entry in at `pos` (replacing the entry there when its key is the key).
pub proof fn lemma_store_insert_split(m: StoreModel, key: Seq<char>, rec: RecordModel, pos: int)
    requires
        store_sorted(m),
        0 <= pos <= m.len(),
        forall|j: int| 0 <= j < pos ==> str_lt(#[trigger] m[j].0, key),
        pos < m.len() ==> (m[pos].0 == key || str_lt(key, m[pos].0)),
    ensures
        pos < m.len() && m[pos].0 == key ==> store_insert(m, key, rec) =~= m.subrange(0, pos)
            + seq![(key, rec)] + m.subrange(pos + 1, m.len() as int),
        !(pos < m.len() && m[pos].0 == key) ==> store_insert(m, key, rec) =~= m.subrange(0, pos)
            + seq![(key, rec)] + m.subrange(pos, m.len() as int),
    decreases m.len(),
{
    if m.len() == 0 {
    } else if pos == 0 {
        if m[0].0 == key {
            lemma_str_lt_irreflexive(key);
            assert(store_insert(m, key, rec) == seq![(key, rec)] + m.drop_first());
            assert(m.drop_first() =~= m.subrange(1, m.len() as int));
        } else {
            assert(str_lt(key, m[0].0));
        }
    } else {
        assert(str_lt(m[0].0, key));
        lemma_str_lt_asymmetric(m[0].0, key);
        assert(!str_lt(key, m[0].0));
        assert(key != m[0].0);
        let mrest = m.drop_first();
        assert forall|j: int| 0 <= j < pos - 1 implies str_lt(#[trigger] mrest[j].0, key) by {
            assert(mrest[j] == m[j + 1]);
        }
        assert(pos - 1 < mrest.len() ==> mrest[pos - 1] == m[pos]);
        lemma_store_insert_split(mrest, key, rec, pos - 1);
        assert(store_insert(m, key, rec) == seq![m[0]] + store_insert(mrest, key, rec));
        assert(m.subrange(0, pos) =~= seq![m[0]] + mrest.subrange(0, pos - 1));
        if pos < m.len() && m[pos].0 == key {
            assert(m.subrange(pos + 1, m.len() as int) =~= mrest.subrange(
                pos,
                mrest.len() as int,
            ));
        } else {
            assert(m.subrange(pos, m.len() as int) =~= mrest.subrange(
                pos - 1,
                mrest.len() as int,
            ));
        }
    }
}

} // verus!
