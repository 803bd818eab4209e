//! The save engine: building a record store from the files a walk over
//! the target directory discovers, applying the ignore specification, and
//! pairing each file's modification time with the fingerprint of the
//! content read in the same pass.

use vstd::prelude::*;
use crate::hashing::{content_hash_hex, spec_content_hash};
use crate::ignore::{IgnoreSpec, kept_count};
use crate::record::{
    FileRecord, RecordModel, RecordStore, StoreModel, store_insert, store_contains, store_wf,
    record_model_wf, lemma_store_insert_wf, lemma_store_insert_keys,
};
use crate::codec::ser_store;

verus! {

/// One discovered regular file, as the save pass observed it: canonical
/// absolute path, modification time and content bytes, all read in the
/// same pass.
pub struct Observation {
    pub path: Seq<char>,
    pub mtime: int,
    pub mtime_nano: int,
    pub content: Seq<u8>,
}

/// The record a save pass builds from one observation.
pub open spec fn observation_record(o: Observation) -> RecordModel {
    RecordModel { mtime: o.mtime, mtime_nano: o.mtime_nano, hash: spec_content_hash(o.content) }
}

/// An observation whose numbers a record can carry.
pub open spec fn observation_wf(o: Observation) -> bool {
    record_model_wf(observation_record(o))
}

/// The store a save pass leaves after offering each observation in turn:
/// an excluded path changes nothing, any other is recorded.
pub open spec fn save_fold(ignore: IgnoreSpec, acc: StoreModel, obs: Seq<Observation>) -> StoreModel
    decreases obs.len(),
{
    if obs.len() == 0 {
        acc
    } else {
        let next = if ignore.spec_excludes(obs[0].path) {
            acc
        } else {
            store_insert(acc, obs[0].path, observation_record(obs[0]))
        };
        save_fold(ignore, next, obs.drop_first())
    }
}

/// The paths of a sequence of observations, in order.
pub open spec fn observation_paths(obs: Seq<Observation>) -> Seq<Seq<char>> {
    Seq::new(obs.len(), |i: int| obs[i].path)
}

/// A single offered observation folds as one step.
pub proof fn lemma_save_fold_one(ignore: IgnoreSpec, acc: StoreModel, o: Observation)
    ensures
        save_fold(ignore, acc, seq![o]) == if ignore.spec_excludes(o.path) {
            acc
        } else {
            store_insert(acc, o.path, observation_record(o))
        },
{
    let soq = seq![o];
    assert(soq[0] == o);
    assert(soq.drop_first() =~= Seq::<Observation>::empty());
    let next = if ignore.spec_excludes(o.path) {
        acc
    } else {
        store_insert(acc, o.path, observation_record(o))
    };
    assert(save_fold(ignore, next, soq.drop_first()) == next);
    assert(save_fold(ignore, acc, soq) == next);
}

/// A save pass in progress: the ignore specification it filters with and
/// the store it has built so far.
pub struct SaveSession {
    ignore: IgnoreSpec,
    store: RecordStore,
}

impl View for SaveSession {
    type V = StoreModel;

    closed spec fn view(&self) -> StoreModel {
        self.store@
    }
}

impl SaveSession {
    /// The ignore specification this pass filters with.
    pub closed spec fn ignore_model(self) -> IgnoreSpec {
        self.ignore
    }

    pub open spec fn wf(self) -> bool {
        store_wf(self@)
    }

    pub fn new(ignore: IgnoreSpec) -> (s: SaveSession)
        ensures
            s.wf(),
            s@ == Seq::<(Seq<char>, RecordModel)>::empty(),
            s.ignore_model() == ignore,
    {
        SaveSession { ignore, store: RecordStore::new() }
    }

    /// Whether a discovered entry should be visited at all: a walker
    /// prunes the whole subtree under an excluded directory and never
    /// yields an excluded file.
    pub fn should_visit(&self, path: &str) -> (r: bool)
        ensures
            r == !self.ignore_model().spec_excludes(path@),
    {
        !self.ignore.excludes(path)
    }

    /// Offer one discovered regular file: an excluded path is not
    /// recorded, any other is, keyed by its canonical path, with the
    /// fingerprint of the content read in the same pass.
    pub fn offer_file(&mut self, path: String, mtime: i64, mtime_nano: u32, content: &[u8]) -> (recorded:
        bool)
        requires
            old(self).wf(),
            mtime_nano < 1_000_000_000,
        ensures
            final(self).wf(),
            final(self).ignore_model() == old(self).ignore_model(),
            recorded == !old(self).ignore_model().spec_excludes(path@),
            final(self)@ == save_fold(
                old(self).ignore_model(),
                old(self)@,
                seq![
                    Observation {
                        path: path@,
                        mtime: mtime as int,
                        mtime_nano: mtime_nano as int,
                        content: content@,
                    },
                ],
            ),
    {
        let ghost o = Observation {
            path: path@,
            mtime: mtime as int,
            mtime_nano: mtime_nano as int,
            content: content@,
        };
        proof {
            lemma_save_fold_one(self.ignore, self@, o);
        }
        if self.ignore.excludes(path.as_str()) {
            false
        } else {
            let hash = content_hash_hex(content);
            let record = FileRecord { mtime, mtime_nano, hash };
            proof {
                assert(record.model() == observation_record(o));
                lemma_store_insert_wf(self@, path@, record.model());
            }
            self.store.insert(path, record);
            true
        }
    }

    /// How many files this pass has recorded.
    pub fn saved_count(&self) -> (n: usize)
        ensures
            n == self@.len(),
    {
        self.store.len()
    }

    /// The serialized text of the store built so far, written once, at the
    /// end of the pass.
    pub fn to_text(&self) -> (r: String)
        ensures
            r@ == ser_store(self@),
    {
        self.store.to_text()
    }
}

/// Ignore correctness: a save pass over distinct canonical paths, none
/// recorded yet, records exactly the observations the ignore
/// specification keeps.
pub proof fn lemma_save_fold_count(ignore: IgnoreSpec, acc: StoreModel, obs: Seq<Observation>)
    requires
        store_wf(acc),
        forall|a: int, b: int| 0 <= a < b < obs.len() ==> obs[a].path != obs[b].path,
        forall|a: int| 0 <= a < obs.len() ==> !store_contains(acc, #[trigger] obs[a].path),
        forall|a: int| 0 <= a < obs.len() ==> observation_wf(#[trigger] obs[a]),
    ensures
        save_fold(ignore, acc, obs).len() == acc.len() + kept_count(
            |p: Seq<char>| ignore.spec_excludes(p),
            observation_paths(obs),
        ),
        store_wf(save_fold(ignore, acc, obs)),
    decreases obs.len(),
{
    let excl = |p: Seq<char>| ignore.spec_excludes(p);
    let paths = observation_paths(obs);
    if obs.len() == 0 {
    } else {
        let o = obs[0];
        let rest = obs.drop_first();
        assert(observation_paths(rest) =~= paths.drop_first());
        assert(paths[0] == o.path);
        if ignore.spec_excludes(o.path) {
            lemma_save_fold_count(ignore, acc, rest);
        } else {
            let acc2 = store_insert(acc, o.path, observation_record(o));
            lemma_store_insert_wf(acc, o.path, observation_record(o));
            lemma_store_insert_keys(acc, o.path, observation_record(o));
            assert(!store_contains(acc, o.path));
            assert(acc2.len() == acc.len() + 1);
            assert forall|a: int| 0 <= a < rest.len() implies !store_contains(
                acc2,
                #[trigger] rest[a].path,
            ) by {
                assert(rest[a] == obs[a + 1]);
                assert(obs[a + 1].path != obs[0].path);
            }
            lemma_save_fold_count(ignore, acc2, rest);
        }
    }
}

/// Determinism behind idempotence: a save pass is a function of the
/// ignore specification and the observed files alone, so two passes over
/// an unchanged tree build equal stores and byte-identical text.
pub proof fn lemma_save_deterministic(
    ig1: IgnoreSpec,
    ig2: IgnoreSpec,
    obs1: Seq<Observation>,
    obs2: Seq<Observation>,
)
    requires
        ig1 == ig2,
        obs1 == obs2,
    ensures
        save_fold(ig1, Seq::empty(), obs1) == save_fold(ig2, Seq::empty(), obs2),
        ser_store(save_fold(ig1, Seq::empty(), obs1)) == ser_store(
            save_fold(ig2, Seq::empty(), obs2),
        ),
{
}

} // verus!
