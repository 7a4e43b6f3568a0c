//! The record store: at most one record per primary key, built up by a
//! merge rule that prefers the sighting with more fields.

use crate::record::{primary_key, Record, RecordView};
use crate::table::{lemma_assoc, Table};
use vstd::prelude::*;

verus! {

/// A store as contracts see it: primary key to record.
pub type StoreView = Map<Seq<char>, RecordView>;

/// What one merge did.
#[derive(Clone, Copy, Debug, PartialEq, Eq, Structural)]
pub enum MergeOutcome {
    /// The key was new; the record was stored.
    Inserted,
    /// The stored record is field for field identical; nothing changed.
    Unchanged,
    /// The record has strictly more fields than the stored one and took
    /// its place.
    Replaced,
    /// The record differs from the stored one and has no more fields; the
    /// stored one was kept. This is the conflict signal.
    KeptExisting,
    /// The record has no textual primary-key field; nothing changed.
    Rejected,
}

/// The outcome of merging `r` into `store`, with `field` naming the
/// primary-key field.
pub open spec fn merge_outcome(store: StoreView, field: Seq<char>, r: RecordView) -> MergeOutcome {
    match primary_key(r, field) {
        None => MergeOutcome::Rejected,
        Some(k) => if !store.contains_key(k) {
            MergeOutcome::Inserted
        } else if store[k] == r {
            MergeOutcome::Unchanged
        } else if store[k].dom().len() < r.dom().len() {
            MergeOutcome::Replaced
        } else {
            MergeOutcome::KeptExisting
        },
    }
}

/// The store after merging `r` into `store`.
pub open spec fn merged(store: StoreView, field: Seq<char>, r: RecordView) -> StoreView {
    match merge_outcome(store, field, r) {
        MergeOutcome::Inserted | MergeOutcome::Replaced => store.insert(
            primary_key(r, field)->0,
            r,
        ),
        _ => store,
    }
}

/// The store after merging the records of `batch` in order.
pub open spec fn merged_all(store: StoreView, field: Seq<char>, batch: Seq<RecordView>) -> StoreView
    decreases batch.len(),
{
    if batch.len() == 0 {
        store
    } else {
        merged(merged_all(store, field, batch.drop_last()), field, batch.last())
    }
}

/// The keys of the store, in order of first sighting, after merging the
/// records of `batch` in order: each insertion adds its key at the end.
pub open spec fn keys_after(
    keys: Seq<Seq<char>>,
    store: StoreView,
    field: Seq<char>,
    batch: Seq<RecordView>,
) -> Seq<Seq<char>>
    decreases batch.len(),
{
    if batch.len() == 0 {
        keys
    } else {
        let before = keys_after(keys, store, field, batch.drop_last());
        if merge_outcome(merged_all(store, field, batch.drop_last()), field, batch.last())
            == MergeOutcome::Inserted {
            before.push(primary_key(batch.last(), field)->0)
        } else {
            before
        }
    }
}

/// The views of a sequence of records.
pub open spec fn record_views(batch: Seq<Record>) -> Seq<RecordView> {
    batch.map_values(|r: Record| r@)
}

/// A deduplicated, keyed collection of records.
pub struct RecordStore {
    key_field: String,
    records: Table<Record>,
}

impl RecordStore {
    /// No key occurs twice and every stored record is well formed.
    pub closed spec fn wf(&self) -> bool {
        &&& self.records.wf()
        &&& forall|k: Seq<char>| #[trigger]
            self.records@.contains_key(k) ==> self.records@[k].wf()
    }

    /// The store as a map from primary key to record.
    pub closed spec fn view(&self) -> StoreView {
        self.records@.map_values(|r: Record| r@)
    }

    /// The name of the field that holds a record's primary key.
    pub closed spec fn key_field(&self) -> Seq<char> {
        self.key_field@
    }

    /// The keys in the order in which the store first saw them.
    pub closed spec fn key_seq(&self) -> Seq<Seq<char>> {
        self.records.key_seq()
    }

    /// The keys of the sequence are the keys of the store, each once.
    pub proof fn lemma_keys(&self)
        requires
            self.wf(),
        ensures
            self.key_seq().no_duplicates(),
            self.key_seq().to_set() == self@.dom(),
    {
        lemma_assoc(self.records.key_seq(), self.records.val_seq());
        assert(self@.dom() =~= self.records@.dom());
    }

    /// An empty store whose records carry their primary key in the field
    /// `key_field`.
    pub fn new(key_field: String) -> (s: Self)
        ensures
            s.wf(),
            s@ == StoreView::empty(),
            s.key_seq() == Seq::<Seq<char>>::empty(),
            s.key_field() == key_field@,
    {
        let s = RecordStore { key_field, records: Table::new() };
        proof {
            assert(s@ =~= StoreView::empty());
        }
        s
    }

    /// The number of records.
    pub fn len(&self) -> (n: usize)
        requires
            self.wf(),
        ensures
            self@.dom().finite(),
            n == self@.dom().len(),
            n == self.key_seq().len(),
    {
        let n = self.records.len();
        proof {
            assert(self@.dom() =~= self.records@.dom());
        }
        n
    }

    /// The key at position `i` in order of first sighting.
    pub fn key_at(&self, i: usize) -> (k: &String)
        requires
            self.wf(),
            i < self.key_seq().len(),
        ensures
            k@ == self.key_seq()[i as int],
            self@.contains_key(k@),
    {
        proof {
            lemma_assoc(self.records.key_seq(), self.records.val_seq());
        }
        self.records.key_at(i)
    }

    /// The record stored under `key`, if there is one.
    pub fn get(&self, key: &String) -> (r: Option<&Record>)
        requires
            self.wf(),
        ensures
            match r {
                Some(rec) => self@.contains_key(key@) && rec@ == self@[key@] && rec.wf(),
                None => !self@.contains_key(key@),
            },
    {
        self.records.get(key)
    }

    /// Puts `record` under `key` as it is, in place of what the key
    /// held: for reading a store back from where it was kept.
    pub fn restore(&mut self, key: String, record: Record)
        requires
            old(self).wf(),
            record.wf(),
        ensures
            final(self).wf(),
            final(self).key_field() == old(self).key_field(),
            final(self)@ == old(self)@.insert(key@, record@),
            final(self).key_seq() == if old(self)@.contains_key(key@) {
                old(self).key_seq()
            } else {
                old(self).key_seq().push(key@)
            },
    {
        proof {
            assert(old(self)@.dom() =~= old(self).records@.dom());
        }
        self.records.insert(key, record);
        proof {
            assert(self@ =~= old(self)@.insert(key@, record@));
        }
    }

    /// Merges one record: a new key is inserted; an identical record
    /// changes nothing; a differing record replaces the stored one only
    /// if it has strictly more fields.
    pub fn merge(&mut self, record: Record) -> (outcome: MergeOutcome)
        requires
            old(self).wf(),
            record.wf(),
        ensures
            final(self).wf(),
            final(self).key_field() == old(self).key_field(),
            outcome == merge_outcome(old(self)@, old(self).key_field(), record@),
            final(self)@ == merged(old(self)@, old(self).key_field(), record@),
            final(self).key_seq() == if outcome == MergeOutcome::Inserted {
                old(self).key_seq().push(primary_key(record@, old(self).key_field())->0)
            } else {
                old(self).key_seq()
            },
    {
        let key = match record.primary_key(&self.key_field) {
            None => {
                return MergeOutcome::Rejected;
            },
            Some(k) => k.clone(),
        };
        let outcome = match self.records.get(&key) {
            None => MergeOutcome::Inserted,
            Some(existing) => {
                if existing.same(&record) {
                    MergeOutcome::Unchanged
                } else if existing.len() < record.len() {
                    MergeOutcome::Replaced
                } else {
                    MergeOutcome::KeptExisting
                }
            },
        };
        match outcome {
            MergeOutcome::Inserted | MergeOutcome::Replaced => {
                self.records.insert(key, record);
                proof {
                    assert(self@ =~= old(self)@.insert(key@, record@));
                }
            },
            _ => {},
        }
        outcome
    }

    /// Merges the records of a batch in order and reports what each
    /// merge did.
    pub fn merge_batch(&mut self, batch: Vec<Record>) -> (outcomes: Vec<MergeOutcome>)
        requires
            old(self).wf(),
            forall|i: int| 0 <= i < batch@.len() ==> (#[trigger] batch@[i]).wf(),
        ensures
            final(self).wf(),
            final(self).key_field() == old(self).key_field(),
            final(self)@ == merged_all(old(self)@, old(self).key_field(), record_views(batch@)),
            final(self).key_seq() == keys_after(
                old(self).key_seq(),
                old(self)@,
                old(self).key_field(),
                record_views(batch@),
            ),
            outcomes@.len() == batch@.len(),
            forall|i: int|
                0 <= i < batch@.len() ==> #[trigger] outcomes@[i] == merge_outcome(
                    merged_all(old(self)@, old(self).key_field(), record_views(batch@).take(i)),
                    old(self).key_field(),
                    batch@[i]@,
                ),
    {
        let ghost views = record_views(batch@);
        let ghost start = self@;
        let ghost start_keys = self.key_seq();
        let ghost field = self.key_field();
        let mut outcomes: Vec<MergeOutcome> = Vec::new();
        for record in it: batch
            invariant
                self.wf(),
                self.key_field() == field,
                views == record_views(batch@),
                it.seq() == batch@,
                forall|i: int| 0 <= i < batch@.len() ==> (#[trigger] batch@[i]).wf(),
                outcomes@.len() == it.index(),
                self@ == merged_all(start, field, views.take(it.index() as int)),
                self.key_seq() == keys_after(start_keys, start, field, views.take(it.index() as int)),
                forall|i: int|
                    0 <= i < it.index() ==> #[trigger] outcomes@[i] == merge_outcome(
                        merged_all(start, field, views.take(i)),
                        field,
                        views[i],
                    ),
        {
            proof {
                let i = it.index() as int;
                assert(views.take(i + 1).drop_last() =~= views.take(i));
                assert(views.take(i + 1).last() == views[i]);
            }
            let outcome = self.merge(record);
            outcomes.push(outcome);
        }
        proof {
            assert(views.take(views.len() as int) =~= views);
        }
        outcomes
    }
}

/// Of two records with one key and different field counts, the one with
/// more fields is stored whichever arrives first: both orders of arrival
/// leave the same store, and where the key was new, or its stored record
/// had fewer fields than the larger one, that store holds the larger one.
pub proof fn lemma_larger_record_wins(
    store: StoreView,
    field: Seq<char>,
    a: RecordView,
    b: RecordView,
)
    requires
        primary_key(a, field).is_some(),
        primary_key(a, field) == primary_key(b, field),
        a.dom().len() < b.dom().len(),
    ensures
        merged(merged(store, field, a), field, b) == merged(merged(store, field, b), field, a),
        !store.contains_key(primary_key(b, field)->0) || store[primary_key(b, field)->0].dom().len()
            < b.dom().len() ==> merged(merged(store, field, a), field, b) == store.insert(
            primary_key(b, field)->0,
            b,
        ),
{
    let k = primary_key(b, field)->0;
    let ab = merged(merged(store, field, a), field, b);
    let ba = merged(merged(store, field, b), field, a);
    assert(ab =~= ba);
    if !store.contains_key(k) || store[k].dom().len() < b.dom().len() {
        assert(ab =~= store.insert(k, b));
    }
}

/// Merging a record a second time changes nothing.
pub proof fn lemma_merge_idempotent(store: StoreView, field: Seq<char>, r: RecordView)
    ensures
        merged(merged(store, field, r), field, r) == merged(store, field, r),
{
    assert(merged(merged(store, field, r), field, r) =~= merged(store, field, r));
}

/// Once a record is the stored one for its key, merging it again reports
/// `Unchanged`: no conflict is signalled.
pub proof fn lemma_remerge_is_silent(store: StoreView, field: Seq<char>, r: RecordView)
    requires
        primary_key(r, field).is_some(),
        merge_outcome(store, field, r) != MergeOutcome::KeptExisting,
    ensures
        merge_outcome(merged(store, field, r), field, r) == MergeOutcome::Unchanged,
{
}

/// A merge never removes a key.
pub proof fn lemma_merge_keeps_keys(store: StoreView, field: Seq<char>, r: RecordView)
    ensures
        store.dom().subset_of(merged(store, field, r).dom()),
{
}

/// A merge touches no key but the record's own.
pub proof fn lemma_merge_keeps_other_keys(
    store: StoreView,
    field: Seq<char>,
    r: RecordView,
    k: Seq<char>,
)
    requires
        primary_key(r, field) != Some(k),
    ensures
        merged(store, field, r).contains_key(k) == store.contains_key(k),
        store.contains_key(k) ==> merged(store, field, r)[k] == store[k],
{
}

} // verus!
