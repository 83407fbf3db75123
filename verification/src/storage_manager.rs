use vstd::prelude::*;
use crate::blob_store::{file_name, file_name_of, BlobStore, BlobView};
use crate::bytes::{frame, framed, unframe, unframed};
use crate::datatypes::{
    follows, Filter, Form, FormSummary, FormTemplate, FormView, StorableObject, SummaryView,
};
use crate::error::Error;
use crate::forms_index::{
    hits, lemma_replay_ignores, listed, replay, EntryView, FormsIndex,
};
use crate::ids::{format_uuid, fresh_id, hyphenated, now_micros, parse_uuid, parsed_uuid, Stamp};
use crate::log::{
    accepts, by_id, chronological, count, distinct_ids, found, has_id, is_deleted, is_live, latest,
    live_keys,
    next_timestamp, restored, successor, TransactionLog,
};
use crate::tables::{arrived, NeededBlobs, Watermarks};
use crate::transactions::{Action, DataType, Transaction, TransactionView};

verus! {

pub const TRANSACTION_TABLE: &'static str = "transactions";

pub const FORMS_TABLE: &'static str = "forms";

pub const WATER_MARK_TABLE: &'static str = "watermarks";

pub const NEEDED_BLOB_TABLE: &'static str = "blobs";

/// The store as a mathematical value: the log, the blobs, and the tables
/// derived from them or kept beside them.
pub struct StoreView {
    pub log: Seq<TransactionView>,
    pub blobs: Map<u128, BlobView>,
    pub index: Seq<EntryView>,
    pub watermarks: Map<u128, u128>,
    pub needed: Set<(u128, u128)>,
    /// Whether a template that has live forms may no longer be edited.
    pub protect_templates: bool,
}

/// The view of a summary that may be absent.
pub open spec fn summary_view(summary: Option<FormSummary>) -> Option<SummaryView> {
    match summary {
        Some(s) => Some(s@),
        None => None,
    }
}

impl StoreView {
    /// The transaction that defines the entity's current state, where the
    /// entity is live.
    pub open spec fn current(self, data_type: DataType, alt_key: Seq<char>) -> Option<TransactionView> {
        match latest(self.log, data_type, alt_key) {
            Some(t) => if t.action.is_live() {
                Some(t)
            } else {
                None
            },
            None => None,
        }
    }

    /// The bytes of the entity's current version, where the entity is live
    /// and the store holds the blob.
    pub open spec fn serialized(self, data_type: DataType, alt_key: Seq<char>) -> Option<Seq<u8>> {
        match self.current(data_type, alt_key) {
            Some(t) => if self.blobs.contains_key(t.blob_id) {
                Some(self.blobs[t.blob_id].data)
            } else {
                None
            },
            None => None,
        }
    }

    /// Whether the entity may not be edited: templates are protected, the
    /// entity is a template, and the index holds a live form filed under it.
    pub open spec fn frozen(self, data_type: DataType, alt_key: Seq<char>) -> bool {
        self.protect_templates && data_type == DataType::Template && listed(self.index, alt_key).len()
            > 0
    }

    /// Whether a write stamped with `stamp` can be recorded: the transaction's
    /// identifier is new, time has not run out, and where the write stores a
    /// blob, the blob's identifier is new.
    pub open spec fn can_commit(self, stamp: Stamp, stores_blob: bool) -> bool {
        &&& stores_blob ==> !self.blobs.contains_key(stamp.blob_id)
        &&& !has_id(self.log, stamp.transaction_id)
        &&& next_timestamp(self.log, stamp.now) <= i64::MAX
    }

    /// The store with one more blob.
    pub open spec fn with_blob(self, blob_id: u128, blob: BlobView) -> StoreView {
        let blobs = self.blobs.insert(blob_id, blob);
        StoreView { blobs, index: replay(self.log, blobs), ..self }
    }

    /// The store with one more transaction.
    pub open spec fn with_transaction(self, t: TransactionView) -> StoreView {
        let log = self.log.push(t);
        StoreView { log, index: replay(log, self.blobs), ..self }
    }

    /// The transaction that a write stamped with `stamp` records.
    pub open spec fn stamped(
        self,
        data_type: DataType,
        action: Action,
        blob_id: u128,
        alt_key: Seq<char>,
        stamp: Stamp,
    ) -> TransactionView {
        TransactionView {
            id: stamp.transaction_id,
            data_type,
            action,
            blob_id,
            alt_key,
            timestamp: next_timestamp(self.log, stamp.now) as i64,
        }
    }

    /// The store after a write that stores `payload` in a new blob and records
    /// `action` on the entity.
    pub open spec fn written(
        self,
        data_type: DataType,
        action: Action,
        alt_key: Seq<char>,
        payload: Seq<u8>,
        summary: Option<SummaryView>,
        stamp: Stamp,
    ) -> StoreView {
        self.with_blob(stamp.blob_id, BlobView { data: payload, summary }).with_transaction(
            self.stamped(data_type, action, stamp.blob_id, alt_key, stamp),
        )
    }

    /// The store after a write that records `action` on the entity and names
    /// a blob that the store knows of already.
    pub open spec fn marked(
        self,
        data_type: DataType,
        action: Action,
        alt_key: Seq<char>,
        blob_id: u128,
        stamp: Stamp,
    ) -> StoreView {
        self.with_transaction(self.stamped(data_type, action, blob_id, alt_key, stamp))
    }
}

/// The identifiers that a list of alt-keys names, in the list's order; an
/// alt-key that names none is passed over.
pub open spec fn parsed_all(keys: Seq<Seq<char>>) -> Seq<u128>
    decreases keys.len(),
{
    if keys.len() == 0 {
        Seq::empty()
    } else {
        match parsed_uuid(keys.last()) {
            Some(id) => parsed_all(keys.drop_last()).push(id),
            None => parsed_all(keys.drop_last()),
        }
    }
}

/// Whether each of the alt-keys is the printable form of an identifier.
pub open spec fn all_printed(keys: Seq<Seq<char>>) -> bool {
    forall|k: int| 0 <= k < keys.len() ==> exists|id: u128| #[trigger] keys[k] == hyphenated(id)
}

/// The storage engine: the blob store, the transaction log, the forms index
/// derived from the two, and the tables that replication keeps.
pub struct StorageManager {
    path: String,
    blobs: BlobStore,
    log: TransactionLog,
    forms: FormsIndex,
    watermarks: Watermarks,
    needed: NeededBlobs,
    protect_templates: bool,
}

impl View for StorageManager {
    type V = StoreView;

    closed spec fn view(&self) -> StoreView {
        StoreView {
            log: self.log@,
            blobs: self.blobs@,
            index: self.forms@,
            watermarks: self.watermarks@,
            needed: self.needed@,
            protect_templates: self.protect_templates,
        }
    }
}

impl StorageManager {
    /// The engine's invariant: each table is well formed, and the forms index
    /// is what a replay of the log over the blobs builds.
    pub closed spec fn wf(&self) -> bool {
        &&& self.log.wf()
        &&& self.blobs.wf()
        &&& self.forms.wf()
        &&& self.watermarks.wf()
        &&& self.needed.wf()
        &&& self.forms@ == replay(self.log@, self.blobs@)
    }

    /// The directory of the blob files.
    pub closed spec fn spec_path(&self) -> Seq<char> {
        self.path@
    }

    /// What the invariant says of the engine's value.
    pub proof fn lemma_wf(&self)
        requires
            self.wf(),
        ensures
            chronological(self@.log),
            distinct_ids(self@.log),
            self@.index == replay(self@.log, self@.blobs),
    {
    }

    /// An empty engine whose blob files lie in `blobs/` under `base_path`.
    pub fn new(base_path: &str) -> (manager: StorageManager)
        ensures
            manager.wf(),
            manager.spec_path() == base_path@ + "blobs/"@,
            manager@ == (StoreView {
                log: Seq::empty(),
                blobs: Map::empty(),
                index: Seq::empty(),
                watermarks: Map::empty(),
                needed: Set::empty(),
                protect_templates: false,
            }),
    {
        let path = base_path.to_owned().concat("blobs/");
        StorageManager {
            path,
            blobs: BlobStore::new(),
            log: TransactionLog::new(),
            forms: FormsIndex::new(),
            watermarks: Watermarks::new(),
            needed: NeededBlobs::new(),
            protect_templates: false,
        }
    }

    /// Says whether a template that has live forms may no longer be edited.
    pub fn set_protect_templates(&mut self, protect: bool)
        requires
            old(self).wf(),
        ensures
            final(self).wf(),
            final(self).spec_path() == old(self).spec_path(),
            final(self)@ == (StoreView { protect_templates: protect, ..old(self)@ }),
    {
        self.protect_templates = protect;
    }

    /// Builds the forms index anew by replaying the log over the blobs: the
    /// index built is the index kept.
    pub fn rebuild_forms_index(&self) -> (index: FormsIndex)
        requires
            self.wf(),
        ensures
            index.wf(),
            index@ == self@.index,
            index@ == replay(self@.log, self@.blobs),
    {
        FormsIndex::rebuild(&self.log, &self.blobs)
    }

    /// The directory of the blob files.
    pub fn get_path(&self) -> (path: &str)
        ensures
            path@ == self.spec_path(),
    {
        self.path.as_str()
    }

    /// The path of the file that holds the blob `id`: the directory of the
    /// blob files and the blob's file name.
    pub fn blob_path(&self, id: u128) -> (path: String)
        ensures
            path@ == self.spec_path() + file_name_of(id),
    {
        let name = file_name(id);
        self.path.clone().concat(name.as_str())
    }

    /// The transaction log.
    pub fn log(&self) -> (log: &TransactionLog)
        requires
            self.wf(),
        ensures
            log@ == self@.log,
            log.wf(),
    {
        &self.log
    }

    /// The blob store.
    pub fn blobs(&self) -> (blobs: &BlobStore)
        requires
            self.wf(),
        ensures
            blobs@ == self@.blobs,
            blobs.wf(),
    {
        &self.blobs
    }

    /// The forms index.
    pub fn forms(&self) -> (forms: &FormsIndex)
        requires
            self.wf(),
        ensures
            forms@ == self@.index,
            forms.wf(),
    {
        &self.forms
    }

    /// Records a write: stores the new blob, where the write has one, and
    /// appends the transaction; the forms index follows. Nothing changes
    /// unless all of it can be done.
    fn commit(
        &mut self,
        data_type: DataType,
        action: Action,
        alt_key: String,
        blob_id: u128,
        new_blob: Option<(Vec<u8>, Option<FormSummary>)>,
        stamp: Stamp,
    ) -> (res: Result<(), Error>)
        requires
            old(self).wf(),
            new_blob is Some ==> blob_id == stamp.blob_id,
        ensures
            final(self).wf(),
            final(self).spec_path() == old(self).spec_path(),
            match res {
                Ok(_) => old(self)@.can_commit(stamp, new_blob is Some) && final(self)@ == (match new_blob {
                    Some((payload, summary)) => old(self)@.written(
                        data_type,
                        action,
                        alt_key@,
                        payload@,
                        summary_view(summary),
                        stamp,
                    ),
                    None => old(self)@.marked(data_type, action, alt_key@, blob_id, stamp),
                }),
                Err(e) => e == Error::Storage && !old(self)@.can_commit(stamp, new_blob is Some)
                    && final(self)@ == old(self)@,
            },
    {
        if new_blob.is_some() && self.blobs.contains(stamp.blob_id) {
            return Err(Error::Storage);
        }
        if self.log.contains_id(stamp.transaction_id) {
            return Err(Error::Storage);
        }
        let timestamp = match self.log.tick(stamp.now) {
            Ok(t) => t,
            Err(e) => {
                return Err(e);
            },
        };
        match new_blob {
            Some((payload, summary)) => {
                let named = self.log.names_form_blob(blob_id);
                let ghost blob = BlobView { data: payload@, summary: summary_view(summary) };
                let put = self.blobs.put_at(blob_id, payload, summary);
                assert(put is Ok);
                if named {
                    self.forms = FormsIndex::rebuild(&self.log, &self.blobs);
                } else {
                    proof {
                        lemma_replay_ignores(self.log@, old(self).blobs@, blob_id, blob);
                    }
                }
            },
            None => {},
        }
        let txn = Transaction {
            id: stamp.transaction_id,
            data_type,
            action,
            blob_id,
            alt_key,
            timestamp,
        };
        self.forms.apply(&txn, &self.blobs);
        let ghost log_before = self.log@;
        let ghost added = txn@;
        let appended = self.log.append(txn);
        proof {
            assert(accepts(log_before, added)) by {
                if log_before.len() > 0 {
                    assert(log_before.last().timestamp < added.timestamp);
                }
            }
            assert(appended is Ok);
            assert(self.log@.drop_last() =~= log_before);
            assert(self.log@.last() == added);
        }
        Ok(())
    }

    /// Whether the store holds the blob `id`.
    pub fn blob_exists(&self, id: u128) -> (found: bool)
        requires
            self.wf(),
        ensures
            found == self@.blobs.contains_key(id),
    {
        self.blobs.contains(id)
    }

    /// Whether the most recent transaction that names the blob `id` is a
    /// delete.
    pub fn blob_deleted(&self, id: u128) -> (deleted: bool)
        requires
            self.wf(),
        ensures
            deleted == is_deleted(self@.log, id),
    {
        self.log.is_deleted(id)
    }

    /// The bytes of the blob `id`: `NotFound` when the store does not hold it.
    pub fn read_blob(&self, id: u128) -> (res: Result<Vec<u8>, Error>)
        requires
            self.wf(),
        ensures
            match res {
                Ok(data) => self@.blobs.contains_key(id) && data@ == self@.blobs[id].data,
                Err(e) => e == Error::NotFound && !self@.blobs.contains_key(id),
            },
    {
        match self.blobs.get(id) {
            Ok(data) => Ok(data.clone()),
            Err(e) => Err(e),
        }
    }

    /// The most recent transaction about the entity, live or tombstoned.
    pub fn latest_transaction_from_alt_key(&self, alt_key: &str, data_type: DataType) -> (res: Result<
        Transaction,
        Error,
    >)
        requires
            self.wf(),
        ensures
            match res {
                Ok(t) => latest(self@.log, data_type, alt_key@) == Some(t@),
                Err(e) => e == Error::NotFound && latest(self@.log, data_type, alt_key@) is None,
            },
    {
        match self.log.latest(data_type, alt_key) {
            Ok(t) => Ok(t.duplicate()),
            Err(e) => Err(e),
        }
    }

    /// How many transactions are about the entity.
    pub fn transaction_count(&self, alt_key: &str, data_type: DataType) -> (n: usize)
        requires
            self.wf(),
        ensures
            n == count(self@.log, data_type, alt_key@),
    {
        self.log.count_by_alt_key(alt_key, data_type)
    }

    /// The blob of the most recent transaction about the entity.
    pub fn latest_blob_from_alt_key(&self, alt_key: &str, data_type: DataType) -> (res: Result<u128, Error>)
        requires
            self.wf(),
        ensures
            match res {
                Ok(blob_id) => latest(self@.log, data_type, alt_key@) matches Some(t) && t.blob_id
                    == blob_id,
                Err(e) => e == Error::NotFound && latest(self@.log, data_type, alt_key@) is None,
            },
    {
        match self.log.latest(data_type, alt_key) {
            Ok(t) => Ok(t.blob_id),
            Err(e) => Err(e),
        }
    }

    /// The action of the most recent transaction about the entity.
    pub fn latest_action_from_alt_key(&self, alt_key: &str, data_type: DataType) -> (res: Result<
        Action,
        Error,
    >)
        requires
            self.wf(),
        ensures
            match res {
                Ok(action) => latest(self@.log, data_type, alt_key@) matches Some(t) && t.action
                    == action,
                Err(e) => e == Error::NotFound && latest(self@.log, data_type, alt_key@) is None,
            },
    {
        self.log.latest_action(data_type, alt_key)
    }

    /// The blob of the entity's current version, where the entity is live.
    pub fn get_blob_id(&self, alt_key: &str, data_type: DataType) -> (res: Option<u128>)
        requires
            self.wf(),
        ensures
            match res {
                Some(blob_id) => self@.current(data_type, alt_key@) matches Some(t) && t.blob_id
                    == blob_id,
                None => self@.current(data_type, alt_key@) is None,
            },
    {
        match self.log.latest(data_type, alt_key) {
            Ok(t) => if t.action.is_live() {
                Some(t.blob_id)
            } else {
                None
            },
            Err(_) => None,
        }
    }

    /// The bytes of the entity's current version: `NotFound` when the entity
    /// was never added, is tombstoned, or its blob is not in the store.
    pub fn storable_get_serialized(&self, key: String, data_type: DataType) -> (res: Result<
        Vec<u8>,
        Error,
    >)
        requires
            self.wf(),
        ensures
            match res {
                Ok(data) => self@.serialized(data_type, key@) == Some(data@),
                Err(e) => e == Error::NotFound && self@.serialized(data_type, key@) is None,
            },
    {
        match self.get_blob_id(key.as_str(), data_type) {
            Some(blob_id) => self.read_blob(blob_id),
            None => Err(Error::NotFound),
        }
    }

    /// The alt-keys of the live entities of a kind, each once, in the order
    /// of their most recent transactions.
    pub fn storable_list(&self, data_type: DataType) -> (keys: Vec<String>)
        requires
            self.wf(),
        ensures
            keys@.len() == live_keys(self@.log, data_type).len(),
            forall|k: int|
                0 <= k < keys@.len() ==> (#[trigger] keys@[k])@ == live_keys(self@.log, data_type)[k],
            forall|key: Seq<char>| #[trigger]
                live_keys(self@.log, data_type).contains(key) <==> is_live(self@.log, data_type, key),
            live_keys(self@.log, data_type).no_duplicates(),
    {
        self.log.list_live(data_type)
    }

    /// Adds an entity whose bytes are `payload`, with what `stamp` holds:
    /// `Conflict` where the alt-key is live, `Storage` where the write cannot
    /// be recorded.
    pub fn add_at(&mut self, alt_key: String, data_type: DataType, payload: Vec<u8>, stamp: Stamp) -> (res:
        Result<String, Error>)
        requires
            old(self).wf(),
        ensures
            final(self).wf(),
            final(self).spec_path() == old(self).spec_path(),
            match res {
                Ok(key) => key@ == alt_key@ && !is_live(old(self)@.log, data_type, alt_key@) && old(
                    self,
                )@.can_commit(stamp, true) && final(self)@ == old(self)@.written(
                    data_type,
                    Action::Add,
                    alt_key@,
                    payload@,
                    None,
                    stamp,
                ),
                Err(e) => final(self)@ == old(self)@ && match e {
                    Error::Conflict => is_live(old(self)@.log, data_type, alt_key@),
                    Error::Storage => !is_live(old(self)@.log, data_type, alt_key@) && !old(
                        self,
                    )@.can_commit(stamp, true),
                    _ => false,
                },
            },
    {
        if self.get_blob_id(alt_key.as_str(), data_type).is_some() {
            return Err(Error::Conflict);
        }
        let key = alt_key.clone();
        match self.commit(data_type, Action::Add, alt_key, stamp.blob_id, Some((payload, None)), stamp) {
            Ok(_) => Ok(key),
            Err(e) => Err(e),
        }
    }

    /// Replaces a live entity's bytes by `payload`, with what `stamp` holds:
    /// `NotFound` where the alt-key is not live, `Immutable` where the entity
    /// is a protected template with live forms, `Storage` where the write
    /// cannot be recorded.
    pub fn edit_at(&mut self, alt_key: String, data_type: DataType, payload: Vec<u8>, stamp: Stamp) -> (res:
        Result<(), Error>)
        requires
            old(self).wf(),
        ensures
            final(self).wf(),
            final(self).spec_path() == old(self).spec_path(),
            match res {
                Ok(_) => is_live(old(self)@.log, data_type, alt_key@) && !old(self)@.frozen(
                    data_type,
                    alt_key@,
                ) && old(self)@.can_commit(stamp, true) && final(self)@ == old(self)@.written(
                    data_type,
                    Action::Edit,
                    alt_key@,
                    payload@,
                    None,
                    stamp,
                ),
                Err(e) => final(self)@ == old(self)@ && match e {
                    Error::NotFound => !is_live(old(self)@.log, data_type, alt_key@),
                    Error::Immutable => is_live(old(self)@.log, data_type, alt_key@) && old(
                        self,
                    )@.frozen(data_type, alt_key@),
                    Error::Storage => is_live(old(self)@.log, data_type, alt_key@) && !old(
                        self,
                    )@.frozen(data_type, alt_key@) && !old(self)@.can_commit(stamp, true),
                    _ => false,
                },
            },
    {
        if self.get_blob_id(alt_key.as_str(), data_type).is_none() {
            return Err(Error::NotFound);
        }
        if self.is_frozen(&alt_key, data_type) {
            return Err(Error::Immutable);
        }
        self.commit(data_type, Action::Edit, alt_key, stamp.blob_id, Some((payload, None)), stamp)
    }

    /// Whether the entity may not be edited: templates are protected, the
    /// entity is a template, and a live form is filed under it.
    pub fn is_frozen(&self, alt_key: &String, data_type: DataType) -> (frozen: bool)
        requires
            self.wf(),
        ensures
            frozen == self@.frozen(data_type, alt_key@),
    {
        if !self.protect_templates {
            return false;
        }
        match data_type {
            DataType::Template => self.forms.list(alt_key).len() > 0,
            _ => false,
        }
    }

    /// Tombstones a live entity, with what `stamp` holds: the delete names the
    /// blob of the entity's current version. `NotFound` where the alt-key is
    /// not live, `Storage` where the write cannot be recorded.
    pub fn delete_at(&mut self, key: &str, data_type: DataType, stamp: Stamp) -> (res: Result<(), Error>)
        requires
            old(self).wf(),
        ensures
            final(self).wf(),
            final(self).spec_path() == old(self).spec_path(),
            match res {
                Ok(_) => old(self)@.current(data_type, key@) matches Some(t) && old(self)@.can_commit(
                    stamp,
                    false,
                ) && final(self)@ == old(self)@.marked(
                    data_type,
                    Action::Delete,
                    key@,
                    t.blob_id,
                    stamp,
                ),
                Err(e) => final(self)@ == old(self)@ && match e {
                    Error::NotFound => !is_live(old(self)@.log, data_type, key@),
                    Error::Storage => is_live(old(self)@.log, data_type, key@) && !old(
                        self,
                    )@.can_commit(stamp, false),
                    _ => false,
                },
            },
    {
        match self.get_blob_id(key, data_type) {
            None => Err(Error::NotFound),
            Some(id) => self.commit(data_type, Action::Delete, key.to_owned(), id, None, stamp),
        }
    }

    /// Adds an entity under its alt-key: where the alt-key is not live, the
    /// entity's bytes go to a new blob and an add is appended. `Conflict`
    /// where the alt-key is live; then the error with which the entity
    /// refuses to give its bytes; then `Storage`, where the write cannot be
    /// recorded.
    pub fn storable_add<S: StorableObject>(&mut self, storable: S) -> (res: Result<String, Error>)
        requires
            old(self).wf(),
        ensures
            final(self).wf(),
            final(self).spec_path() == old(self).spec_path(),
            match res {
                Ok(key) => key@ == storable.alt_key() && !is_live(
                    old(self)@.log,
                    storable.data_type(),
                    storable.alt_key(),
                ) && storable.serialized() is Ok && exists|stamp: Stamp|
                    old(self)@.can_commit(stamp, true) && final(self)@ == #[trigger] old(self)@.written(
                        storable.data_type(),
                        Action::Add,
                        storable.alt_key(),
                        storable.serialized()->Ok_0,
                        None,
                        stamp,
                    ),
                Err(e) => final(self)@ == old(self)@ && if is_live(
                    old(self)@.log,
                    storable.data_type(),
                    storable.alt_key(),
                ) {
                    e == Error::Conflict
                } else {
                    match storable.serialized() {
                        Ok(_) => e == Error::Storage && exists|stamp: Stamp|
                            !#[trigger] old(self)@.can_commit(stamp, true),
                        Err(refusal) => e == refusal,
                    }
                },
            },
    {
        let alt_key = storable.get_alt_key();
        let data_type = storable.get_type();
        if self.get_blob_id(alt_key.as_str(), data_type).is_some() {
            return Err(Error::Conflict);
        }
        match storable.ser() {
            Ok(payload) => {
                let stamp = Stamp::draw();
                let res = self.add_at(alt_key, data_type, payload, stamp);
                proof {
                    if res is Ok {
                        assert(final(self)@ == old(self)@.written(
                            storable.data_type(),
                            Action::Add,
                            storable.alt_key(),
                            storable.serialized()->Ok_0,
                            None,
                            stamp,
                        ));
                    }
                }
                res
            },
            Err(e) => Err(e),
        }
    }

    /// Replaces a live entity: its bytes go to a new blob and an edit is
    /// appended. `NotFound` where the alt-key is not live; then `Immutable`,
    /// where the entity is a protected template with live forms; then the
    /// error with which the entity refuses to give its bytes; then `Storage`,
    /// where the write cannot be recorded.
    pub fn storable_edit<S: StorableObject>(&mut self, storable: S) -> (res: Result<(), Error>)
        requires
            old(self).wf(),
        ensures
            final(self).wf(),
            final(self).spec_path() == old(self).spec_path(),
            match res {
                Ok(_) => is_live(old(self)@.log, storable.data_type(), storable.alt_key()) && !old(
                    self,
                )@.frozen(storable.data_type(), storable.alt_key()) && storable.serialized() is Ok
                    && exists|stamp: Stamp|
                    old(self)@.can_commit(stamp, true) && final(self)@ == #[trigger] old(self)@.written(
                        storable.data_type(),
                        Action::Edit,
                        storable.alt_key(),
                        storable.serialized()->Ok_0,
                        None,
                        stamp,
                    ),
                Err(e) => final(self)@ == old(self)@ && if !is_live(
                    old(self)@.log,
                    storable.data_type(),
                    storable.alt_key(),
                ) {
                    e == Error::NotFound
                } else if old(self)@.frozen(storable.data_type(), storable.alt_key()) {
                    e == Error::Immutable
                } else {
                    match storable.serialized() {
                        Ok(_) => e == Error::Storage && exists|stamp: Stamp|
                            !#[trigger] old(self)@.can_commit(stamp, true),
                        Err(refusal) => e == refusal,
                    }
                },
            },
    {
        let alt_key = storable.get_alt_key();
        let data_type = storable.get_type();
        if self.get_blob_id(alt_key.as_str(), data_type).is_none() {
            return Err(Error::NotFound);
        }
        if self.is_frozen(&alt_key, data_type) {
            return Err(Error::Immutable);
        }
        match storable.ser() {
            Ok(payload) => {
                let stamp = Stamp::draw();
                let res = self.edit_at(alt_key, data_type, payload, stamp);
                proof {
                    if res is Ok {
                        assert(final(self)@ == old(self)@.written(
                            storable.data_type(),
                            Action::Edit,
                            storable.alt_key(),
                            storable.serialized()->Ok_0,
                            None,
                            stamp,
                        ));
                    }
                }
                res
            },
            Err(e) => Err(e),
        }
    }

    /// Tombstones a live entity: `NotFound` where the alt-key is not live,
    /// `Storage` where the write cannot be recorded.
    pub fn storable_delete(&mut self, key: &str, data_type: DataType) -> (res: Result<(), Error>)
        requires
            old(self).wf(),
        ensures
            final(self).wf(),
            final(self).spec_path() == old(self).spec_path(),
            match res {
                Ok(_) => old(self)@.current(data_type, key@) matches Some(t) && exists|stamp: Stamp|
                    old(self)@.can_commit(stamp, false) && final(self)@ == #[trigger] old(self)@.marked(
                        data_type,
                        Action::Delete,
                        key@,
                        t.blob_id,
                        stamp,
                    ),
                Err(e) => final(self)@ == old(self)@ && match e {
                    Error::NotFound => !is_live(old(self)@.log, data_type, key@),
                    Error::Storage => is_live(old(self)@.log, data_type, key@) && exists|stamp: Stamp|
                        !#[trigger] old(self)@.can_commit(stamp, false),
                    _ => false,
                },
            },
    {
        self.delete_at(key, data_type, Stamp::draw())
    }

    /// Files a form under a template, with what `stamp` holds and the form's
    /// bytes as `payload`, under the identifier `form_id`. `NotFound` where
    /// the template is not live, `ValidationFailed` where the form does not
    /// follow it, `Storage` where the write cannot be recorded. The form's
    /// alt-key is the printable form of `form_id`.
    pub fn forms_add_at(
        &mut self,
        template: &FormTemplate,
        form: &Form,
        form_id: u128,
        payload: Vec<u8>,
        stamp: Stamp,
    ) -> (res: Result<u128, Error>)
        requires
            old(self).wf(),
        ensures
            final(self).wf(),
            final(self).spec_path() == old(self).spec_path(),
            match res {
                Ok(id) => id == form_id && is_live(old(self)@.log, DataType::Template, template@.name)
                    && follows(template@, form@) && old(self)@.can_commit(stamp, true) && final(self)@
                    == old(self)@.written(
                    DataType::Form,
                    Action::Add,
                    hyphenated(form_id),
                    payload@,
                    Some(form@.summary(template@.name)),
                    stamp,
                ),
                Err(e) => final(self)@ == old(self)@ && match e {
                    Error::NotFound => !is_live(old(self)@.log, DataType::Template, template@.name),
                    Error::ValidationFailed => is_live(
                        old(self)@.log,
                        DataType::Template,
                        template@.name,
                    ) && !follows(template@, form@),
                    Error::Storage => is_live(old(self)@.log, DataType::Template, template@.name)
                        && follows(template@, form@) && !old(self)@.can_commit(stamp, true),
                    _ => false,
                },
            },
    {
        let name = template.name();
        if self.get_blob_id(name.as_str(), DataType::Template).is_none() {
            return Err(Error::NotFound);
        }
        if !template.validate_form(form) {
            return Err(Error::ValidationFailed);
        }
        let summary = form.summary(name.as_str());
        let alt_key = format_uuid(form_id);
        match self.commit(
            DataType::Form,
            Action::Add,
            alt_key,
            stamp.blob_id,
            Some((payload, Some(summary))),
            stamp,
        ) {
            Ok(_) => Ok(form_id),
            Err(e) => Err(e),
        }
    }

    /// Files a form under a template. Where the template is live and the form
    /// follows it, the engine draws an identifier for the form, puts it into
    /// the form, asks `encode` for the bytes of the form so completed, stores
    /// them in a new blob and appends an add under the identifier's printable
    /// form. `NotFound` where the template is not live, `ValidationFailed`
    /// where the form does not follow it; otherwise the error that `encode`
    /// gave, or `Storage`.
    pub fn forms_add<E>(&mut self, template: &FormTemplate, form: Form, encode: E) -> (res: Result<
        u128,
        Error,
    >) where E: FnOnce(&Form) -> Result<Vec<u8>, Error>
        requires
            old(self).wf(),
            forall|f: &Form| encode.requires((f,)),
        ensures
            final(self).wf(),
            final(self).spec_path() == old(self).spec_path(),
            !is_live(old(self)@.log, DataType::Template, template@.name) ==> res == Err::<u128, Error>(
                Error::NotFound,
            ),
            is_live(old(self)@.log, DataType::Template, template@.name) && !follows(template@, form@)
                ==> res == Err::<u128, Error>(Error::ValidationFailed),
            match res {
                Ok(id) => is_live(old(self)@.log, DataType::Template, template@.name) && follows(
                    template@,
                    form@,
                ) && exists|payload: Vec<u8>, stamp: Stamp, filed: Form|
                    filed@ == (FormView { id: Some(id), ..form@ }) && encode.ensures(
                        (&filed,),
                        Ok(payload),
                    ) && old(self)@.can_commit(stamp, true) && final(self)@ == #[trigger] old(
                        self,
                    )@.written(
                        DataType::Form,
                        Action::Add,
                        hyphenated(id),
                        payload@,
                        Some(filed@.summary(template@.name)),
                        stamp,
                    ),
                Err(e) => final(self)@ == old(self)@ && (is_live(
                    old(self)@.log,
                    DataType::Template,
                    template@.name,
                ) && follows(template@, form@) ==> (e == Error::Storage && exists|stamp: Stamp|
                    !#[trigger] old(self)@.can_commit(stamp, true)) || exists|filed: Form|
                    filed@.id is Some && filed@ == (FormView { id: filed@.id, ..form@ })
                        && #[trigger] encode.ensures((&filed,), Err::<Vec<u8>, Error>(e))),
            },
    {
        let name = template.name();
        if self.get_blob_id(name.as_str(), DataType::Template).is_none() {
            return Err(Error::NotFound);
        }
        if !template.validate_form(&form) {
            return Err(Error::ValidationFailed);
        }
        let id = fresh_id();
        let filed = form.with_id(id);
        match encode(&filed) {
            Ok(payload) => {
                let stamp = Stamp::draw();
                let ghost bytes = payload;
                let res = self.forms_add_at(template, &filed, id, payload, stamp);
                proof {
                    if res is Ok {
                        assert(final(self)@ == old(self)@.written(
                            DataType::Form,
                            Action::Add,
                            hyphenated(id),
                            bytes@,
                            Some(filed@.summary(template@.name)),
                            stamp,
                        ));
                    }
                }
                res
            },
            Err(e) => Err(e),
        }
    }

    /// Replaces a live form's version, with what `stamp` holds and the form's
    /// bytes as `payload`. The checks come in this order: `NotFound` where
    /// the template is not live, `ValidationFailed` where the form does not
    /// follow it, `NotFound` where the form is not live, `Decode` where `id`
    /// names no identifier, `Storage` where the write cannot be recorded.
    pub fn forms_edit_at(
        &mut self,
        template: &FormTemplate,
        form: &Form,
        id: String,
        payload: Vec<u8>,
        stamp: Stamp,
    ) -> (res: Result<(), Error>)
        requires
            old(self).wf(),
        ensures
            final(self).wf(),
            final(self).spec_path() == old(self).spec_path(),
            match res {
                Ok(_) => is_live(old(self)@.log, DataType::Template, template@.name) && follows(
                    template@,
                    form@,
                ) && is_live(old(self)@.log, DataType::Form, id@) && parsed_uuid(id@) is Some && old(
                    self,
                )@.can_commit(stamp, true) && final(self)@ == old(self)@.written(
                    DataType::Form,
                    Action::Edit,
                    id@,
                    payload@,
                    Some(form@.summary(template@.name)),
                    stamp,
                ),
                Err(e) => final(self)@ == old(self)@ && match e {
                    Error::NotFound => !is_live(old(self)@.log, DataType::Template, template@.name) || (
                    follows(template@, form@) && !is_live(old(self)@.log, DataType::Form, id@)),
                    Error::ValidationFailed => is_live(
                        old(self)@.log,
                        DataType::Template,
                        template@.name,
                    ) && !follows(template@, form@),
                    Error::Decode => is_live(old(self)@.log, DataType::Template, template@.name)
                        && follows(template@, form@) && is_live(old(self)@.log, DataType::Form, id@)
                        && parsed_uuid(id@) is None,
                    Error::Storage => is_live(old(self)@.log, DataType::Template, template@.name)
                        && follows(template@, form@) && is_live(old(self)@.log, DataType::Form, id@)
                        && parsed_uuid(id@) is Some && !old(self)@.can_commit(stamp, true),
                    _ => false,
                },
            },
    {
        let name = template.name();
        if self.get_blob_id(name.as_str(), DataType::Template).is_none() {
            return Err(Error::NotFound);
        }
        if !template.validate_form(form) {
            return Err(Error::ValidationFailed);
        }
        if self.get_blob_id(id.as_str(), DataType::Form).is_none() {
            return Err(Error::NotFound);
        }
        if parse_uuid(id.as_str()).is_none() {
            return Err(Error::Decode);
        }
        let summary = form.summary(name.as_str());
        self.commit(DataType::Form, Action::Edit, id, stamp.blob_id, Some((payload, Some(summary))), stamp)
    }

    /// Replaces a live form's version. Where the template is live, the form
    /// follows it, the form `id` is live and `id` names an identifier, the
    /// engine puts that identifier into the form, asks `encode` for the bytes
    /// of the form so completed, stores them in a new blob and appends an
    /// edit. The refusals are those of `forms_edit_at`, in its order, and
    /// after them the error that `encode` gave, or `Storage`.
    pub fn forms_edit<E>(&mut self, template: &FormTemplate, form: Form, id: String, encode: E) -> (res:
        Result<(), Error>) where E: FnOnce(&Form) -> Result<Vec<u8>, Error>
        requires
            old(self).wf(),
            forall|f: &Form| encode.requires((f,)),
        ensures
            final(self).wf(),
            final(self).spec_path() == old(self).spec_path(),
            !is_live(old(self)@.log, DataType::Template, template@.name) ==> res == Err::<(), Error>(
                Error::NotFound,
            ),
            is_live(old(self)@.log, DataType::Template, template@.name) && !follows(template@, form@)
                ==> res == Err::<(), Error>(Error::ValidationFailed),
            is_live(old(self)@.log, DataType::Template, template@.name) && follows(template@, form@)
                && !is_live(old(self)@.log, DataType::Form, id@) ==> res == Err::<(), Error>(
                Error::NotFound,
            ),
            is_live(old(self)@.log, DataType::Template, template@.name) && follows(template@, form@)
                && is_live(old(self)@.log, DataType::Form, id@) && parsed_uuid(id@) is None ==> res
                == Err::<(), Error>(Error::Decode),
            match res {
                Ok(_) => exists|payload: Vec<u8>, stamp: Stamp, filed: Form|
                    filed@ == (FormView { id: parsed_uuid(id@), ..form@ }) && encode.ensures(
                        (&filed,),
                        Ok(payload),
                    ) && old(self)@.can_commit(stamp, true) && final(self)@ == #[trigger] old(
                        self,
                    )@.written(
                        DataType::Form,
                        Action::Edit,
                        id@,
                        payload@,
                        Some(filed@.summary(template@.name)),
                        stamp,
                    ),
                Err(e) => final(self)@ == old(self)@ && (is_live(
                    old(self)@.log,
                    DataType::Template,
                    template@.name,
                ) && follows(template@, form@) && is_live(old(self)@.log, DataType::Form, id@)
                    && parsed_uuid(id@) is Some ==> (e == Error::Storage && exists|stamp: Stamp|
                    !#[trigger] old(self)@.can_commit(stamp, true)) || exists|filed: Form|
                    filed@ == (FormView { id: parsed_uuid(id@), ..form@ }) && #[trigger] encode.ensures(
                        (&filed,),
                        Err::<Vec<u8>, Error>(e),
                    )),
            },
    {
        let name = template.name();
        if self.get_blob_id(name.as_str(), DataType::Template).is_none() {
            return Err(Error::NotFound);
        }
        if !template.validate_form(&form) {
            return Err(Error::ValidationFailed);
        }
        if self.get_blob_id(id.as_str(), DataType::Form).is_none() {
            return Err(Error::NotFound);
        }
        let uuid = match parse_uuid(id.as_str()) {
            Some(uuid) => uuid,
            None => {
                return Err(Error::Decode);
            },
        };
        let filed = form.with_id(uuid);
        match encode(&filed) {
            Ok(payload) => {
                let stamp = Stamp::draw();
                let ghost bytes = payload;
                let res = self.forms_edit_at(template, &filed, id, payload, stamp);
                proof {
                    if res is Ok {
                        assert(final(self)@ == old(self)@.written(
                            DataType::Form,
                            Action::Edit,
                            id@,
                            bytes@,
                            Some(filed@.summary(template@.name)),
                            stamp,
                        ));
                    }
                }
                res
            },
            Err(e) => Err(e),
        }
    }

    /// Tombstones a form, with what `stamp` holds. A form that is tombstoned
    /// already stays as it is, and the call succeeds; a live form gets a
    /// delete that names the blob of its current version. `NotFound` where
    /// the log does not mention the form, `Storage` where the write cannot be
    /// recorded.
    pub fn forms_delete_at(&mut self, id: String, stamp: Stamp) -> (res: Result<(), Error>)
        requires
            old(self).wf(),
        ensures
            final(self).wf(),
            final(self).spec_path() == old(self).spec_path(),
            match res {
                Ok(_) => latest(old(self)@.log, DataType::Form, id@) matches Some(t) && if t.action
                    == Action::Delete {
                    final(self)@ == old(self)@
                } else {
                    old(self)@.can_commit(stamp, false) && final(self)@ == old(self)@.marked(
                        DataType::Form,
                        Action::Delete,
                        id@,
                        t.blob_id,
                        stamp,
                    )
                },
                Err(e) => final(self)@ == old(self)@ && match e {
                    Error::NotFound => latest(old(self)@.log, DataType::Form, id@) is None,
                    Error::Storage => is_live(old(self)@.log, DataType::Form, id@) && !old(
                        self,
                    )@.can_commit(stamp, false),
                    _ => false,
                },
            },
    {
        let (blob_id, live) = match self.log.latest(DataType::Form, id.as_str()) {
            Ok(t) => (t.blob_id, t.action.is_live()),
            Err(e) => {
                return Err(e);
            },
        };
        if !live {
            return Ok(());
        }
        self.commit(DataType::Form, Action::Delete, id, blob_id, None, stamp)
    }

    /// Tombstones a form; the template's name plays no part. A form that is
    /// tombstoned already stays as it is, and the call succeeds.
    pub fn forms_delete(&mut self, _template: String, id: String) -> (res: Result<(), Error>)
        requires
            old(self).wf(),
        ensures
            final(self).wf(),
            final(self).spec_path() == old(self).spec_path(),
            match res {
                Ok(_) => latest(old(self)@.log, DataType::Form, id@) matches Some(t) && if t.action
                    == Action::Delete {
                    final(self)@ == old(self)@
                } else {
                    exists|stamp: Stamp|
                        old(self)@.can_commit(stamp, false) && final(self)@ == #[trigger] old(
                            self,
                        )@.marked(DataType::Form, Action::Delete, id@, t.blob_id, stamp)
                },
                Err(e) => final(self)@ == old(self)@ && match e {
                    Error::NotFound => latest(old(self)@.log, DataType::Form, id@) is None,
                    Error::Storage => is_live(old(self)@.log, DataType::Form, id@) && exists|
                        stamp: Stamp,
                    | !#[trigger] old(self)@.can_commit(stamp, false),
                    _ => false,
                },
            },
    {
        self.forms_delete_at(id, Stamp::draw())
    }

    /// The bytes of a form's current version; the template's name plays no
    /// part. `NotFound` when the form was never added, is tombstoned, or its
    /// blob is not in the store.
    pub fn forms_get_serialized(&self, _template: String, id: String) -> (res: Result<Vec<u8>, Error>)
        requires
            self.wf(),
        ensures
            match res {
                Ok(data) => self@.serialized(DataType::Form, id@) == Some(data@),
                Err(e) => e == Error::NotFound && self@.serialized(DataType::Form, id@) is None,
            },
    {
        self.storable_get_serialized(id, DataType::Form)
    }

    /// The identifiers of the live forms filed under `template`, in the order
    /// of the index; a form whose alt-key names no identifier is passed over.
    /// A form filed under the printable form of an identifier is listed by
    /// that identifier. No form is listed twice; where every form is filed
    /// under the printable form of an identifier, as the forms that this
    /// engine adds are, no identifier is listed twice either.
    pub fn forms_list(&self, template: String) -> (ids: Vec<u128>)
        requires
            self.wf(),
        ensures
            ids@ == parsed_all(listed(self@.index, template@)),
            forall|id: u128| listed(self@.index, template@).contains(hyphenated(id)) ==> ids@.contains(id),
            listed(self@.index, template@).no_duplicates(),
            all_printed(listed(self@.index, template@)) ==> ids@.no_duplicates() && ids@.len() == listed(
                self@.index,
                template@,
            ).len(),
    {
        let keys = self.forms.list(&template);
        let ghost all = listed(self@.index, template@);
        let mut ids: Vec<u128> = Vec::new();
        let mut i: usize = 0;
        assert(all.take(0) =~= Seq::<Seq<char>>::empty());
        while i < keys.len()
            invariant
                i <= keys.len(),
                keys@.len() == all.len(),
                forall|k: int| 0 <= k < keys@.len() ==> (#[trigger] keys@[k])@ == all[k],
                ids@ == parsed_all(all.take(i as int)),
                forall|id: u128, k: int| 0 <= k < i && all[k] == hyphenated(id) ==> ids@.contains(id),
                all_printed(all) ==> ids@.len() == i && forall|k: int|
                    0 <= k < i ==> all[k] == hyphenated(#[trigger] ids@[k]),
            decreases keys.len() - i,
        {
            proof {
                let next = all.take(i + 1);
                assert(next.last() == all[i as int]);
                assert(next.drop_last() =~= all.take(i as int));
            }
            let ghost before = ids@;
            match parse_uuid(keys[i].as_str()) {
                Some(id) => {
                    ids.push(id);
                    assert(ids@[ids@.len() - 1] == id);
                },
                None => {},
            }
            proof {
                if all_printed(all) {
                    let known = choose|known: u128| all[i as int] == hyphenated(known);
                    assert(ids@.len() == i + 1 && ids@[i as int] == known);
                    assert forall|k: int| 0 <= k < i + 1 implies all[k] == hyphenated(
                        #[trigger] ids@[k],
                    ) by {
                        if k < i {
                            assert(ids@[k] == before[k]);
                        }
                    }
                }
                assert forall|id: u128, k: int| 0 <= k < i + 1 && all[k] == hyphenated(id) implies ids@.contains(
                    id,
                ) by {
                    if k < i {
                        assert(before.contains(id));
                        let m = choose|m: int| 0 <= m < before.len() && before[m] == id;
                        assert(ids@[m] == id);
                    }
                }
            }
            i += 1;
        }
        assert(all.take(all.len() as int) =~= all);
        proof {
            assert forall|id: u128| all.contains(hyphenated(id)) implies ids@.contains(id) by {
                let k = choose|k: int| 0 <= k < all.len() && all[k] == hyphenated(id);
            }
            crate::forms_index::lemma_listed(self@.index, template@);
            if all_printed(all) {
                assert forall|a: int, b: int|
                    0 <= a < ids@.len() && 0 <= b < ids@.len() && a != b implies ids@[a] != ids@[b] by {
                    assert(all[a] == hyphenated(ids@[a]) && all[b] == hyphenated(ids@[b]));
                    assert(all[a] != all[b]);
                }
            }
        }
        ids
    }

    /// The blobs of the live forms filed under `template` that pass every
    /// predicate of `filter`, in the order of the index.
    pub fn forms_filter(&self, template: String, filter: Filter) -> (blob_ids: Vec<u128>)
        requires
            self.wf(),
        ensures
            blob_ids@ == hits(self@.index, template@, filter@),
    {
        self.forms.filter(&template, &filter)
    }

    /// Adds a bytes entity: its blob frames the alt-key and the payload.
    /// `Conflict` where the alt-key is live, `Storage` where the write cannot
    /// be recorded.
    pub fn bytes_add(&mut self, key: String, payload: Vec<u8>) -> (res: Result<String, Error>)
        requires
            old(self).wf(),
        ensures
            final(self).wf(),
            final(self).spec_path() == old(self).spec_path(),
            match res {
                Ok(alt_key) => alt_key@ == key@ && !is_live(old(self)@.log, DataType::Bytes, key@)
                    && exists|stamp: Stamp|
                    old(self)@.can_commit(stamp, true) && final(self)@ == #[trigger] old(self)@.written(
                        DataType::Bytes,
                        Action::Add,
                        key@,
                        framed(key@, payload@),
                        None,
                        stamp,
                    ),
                Err(e) => final(self)@ == old(self)@ && match e {
                    Error::Conflict => is_live(old(self)@.log, DataType::Bytes, key@),
                    Error::Storage => !is_live(old(self)@.log, DataType::Bytes, key@) && exists|
                        stamp: Stamp,
                    | !#[trigger] old(self)@.can_commit(stamp, true),
                    _ => false,
                },
            },
    {
        let blob = frame(key.as_str(), payload.as_slice());
        self.add_at(key, DataType::Bytes, blob, Stamp::draw())
    }

    /// Replaces a live bytes entity's payload. `NotFound` where the alt-key is
    /// not live, `Storage` where the write cannot be recorded.
    pub fn bytes_edit(&mut self, key: String, payload: Vec<u8>) -> (res: Result<(), Error>)
        requires
            old(self).wf(),
        ensures
            final(self).wf(),
            final(self).spec_path() == old(self).spec_path(),
            match res {
                Ok(_) => is_live(old(self)@.log, DataType::Bytes, key@) && exists|stamp: Stamp|
                    old(self)@.can_commit(stamp, true) && final(self)@ == #[trigger] old(self)@.written(
                        DataType::Bytes,
                        Action::Edit,
                        key@,
                        framed(key@, payload@),
                        None,
                        stamp,
                    ),
                Err(e) => final(self)@ == old(self)@ && match e {
                    Error::NotFound => !is_live(old(self)@.log, DataType::Bytes, key@),
                    Error::Storage => is_live(old(self)@.log, DataType::Bytes, key@) && exists|
                        stamp: Stamp,
                    | !#[trigger] old(self)@.can_commit(stamp, true),
                    _ => false,
                },
            },
    {
        let blob = frame(key.as_str(), payload.as_slice());
        self.edit_at(key, DataType::Bytes, blob, Stamp::draw())
    }

    /// Tombstones a live bytes entity. `NotFound` where the alt-key is not
    /// live, `Storage` where the write cannot be recorded.
    pub fn bytes_delete(&mut self, key: &str) -> (res: Result<(), Error>)
        requires
            old(self).wf(),
        ensures
            final(self).wf(),
            final(self).spec_path() == old(self).spec_path(),
            match res {
                Ok(_) => old(self)@.current(DataType::Bytes, key@) matches Some(t) && exists|stamp: Stamp|
                    old(self)@.can_commit(stamp, false) && final(self)@ == #[trigger] old(self)@.marked(
                        DataType::Bytes,
                        Action::Delete,
                        key@,
                        t.blob_id,
                        stamp,
                    ),
                Err(e) => final(self)@ == old(self)@ && match e {
                    Error::NotFound => !is_live(old(self)@.log, DataType::Bytes, key@),
                    Error::Storage => is_live(old(self)@.log, DataType::Bytes, key@) && exists|
                        stamp: Stamp,
                    | !#[trigger] old(self)@.can_commit(stamp, false),
                    _ => false,
                },
            },
    {
        self.storable_delete(key, DataType::Bytes)
    }

    /// The payload of a live bytes entity: what its blob frames after the
    /// alt-key. `NotFound` when the entity is not live or its blob is not in
    /// the store, `Decode` when the blob frames nothing.
    pub fn bytes_get(&self, key: &str) -> (res: Result<Vec<u8>, Error>)
        requires
            self.wf(),
        ensures
            match res {
                Ok(payload) => self@.serialized(DataType::Bytes, key@) matches Some(blob) && unframed(
                    blob,
                ) matches Some(parts) && parts.1 == payload@,
                Err(e) => match e {
                    Error::NotFound => self@.serialized(DataType::Bytes, key@) is None,
                    Error::Decode => self@.serialized(DataType::Bytes, key@) matches Some(blob)
                        && unframed(blob) is None,
                    _ => false,
                },
            },
    {
        let blob = match self.storable_get_serialized(key.to_owned(), DataType::Bytes) {
            Ok(blob) => blob,
            Err(e) => {
                return Err(e);
            },
        };
        match unframe(blob.as_slice()) {
            Ok((_, payload)) => Ok(payload),
            Err(e) => Err(e),
        }
    }

    /// The alt-keys of the live bytes entities, each once.
    pub fn bytes_list(&self) -> (keys: Vec<String>)
        requires
            self.wf(),
        ensures
            keys@.len() == live_keys(self@.log, DataType::Bytes).len(),
            forall|k: int|
                0 <= k < keys@.len() ==> (#[trigger] keys@[k])@ == live_keys(
                    self@.log,
                    DataType::Bytes,
                )[k],
            forall|key: Seq<char>| #[trigger]
                live_keys(self@.log, DataType::Bytes).contains(key) <==> is_live(
                    self@.log,
                    DataType::Bytes,
                    key,
                ),
            live_keys(self@.log, DataType::Bytes).no_duplicates(),
    {
        self.storable_list(DataType::Bytes)
    }

    /// Stores a blob under the identifier it came with, as when a peer hands
    /// it over: the blob is no longer awaited, and the forms index takes up
    /// the forms whose current version it is. `Storage` where the store holds
    /// a blob under that identifier already.
    pub fn write_blob_at(&mut self, id: u128, data: Vec<u8>, summary: Option<FormSummary>) -> (res: Result<
        (),
        Error,
    >)
        requires
            old(self).wf(),
        ensures
            final(self).wf(),
            final(self).spec_path() == old(self).spec_path(),
            match res {
                Ok(_) => !old(self)@.blobs.contains_key(id) && final(self)@ == (StoreView {
                    needed: arrived(old(self)@.needed, id),
                    ..old(self)@.with_blob(id, BlobView { data: data@, summary: summary_view(summary) })
                }),
                Err(e) => e == Error::Storage && old(self)@.blobs.contains_key(id) && final(self)@
                    == old(self)@,
            },
    {
        if self.blobs.contains(id) {
            return Err(Error::Storage);
        }
        let named = self.log.names_form_blob(id);
        let ghost blob = BlobView { data: data@, summary: summary_view(summary) };
        let put = self.blobs.put_at(id, data, summary);
        assert(put is Ok);
        if named {
            self.forms = FormsIndex::rebuild(&self.log, &self.blobs);
        } else {
            proof {
                lemma_replay_ignores(self.log@, old(self).blobs@, id, blob);
            }
        }
        self.needed.remove_blob(id);
        Ok(())
    }

    /// Stores a blob under a fresh random identifier and returns the
    /// identifier; `Storage` in the event that the identifier drawn is taken,
    /// which cannot be while the store holds no blob.
    pub fn write_blob(&mut self, data: Vec<u8>, summary: Option<FormSummary>) -> (res: Result<u128, Error>)
        requires
            old(self).wf(),
        ensures
            final(self).wf(),
            final(self).spec_path() == old(self).spec_path(),
            match res {
                Ok(id) => !old(self)@.blobs.contains_key(id) && final(self)@ == (StoreView {
                    needed: arrived(old(self)@.needed, id),
                    ..old(self)@.with_blob(id, BlobView { data: data@, summary: summary_view(summary) })
                }),
                Err(e) => e == Error::Storage && final(self)@ == old(self)@ && exists|id: u128|
                    #[trigger] old(self)@.blobs.contains_key(id),
            },
    {
        let id = fresh_id();
        match self.write_blob_at(id, data, summary) {
            Ok(_) => Ok(id),
            Err(e) => Err(e),
        }
    }

    /// Searches the alt-keys of every kind: for each alt-key in which the
    /// pattern stands, the most recent transaction under it, in the log's
    /// order.
    pub fn search(&self, search: &str) -> (entries: Vec<Transaction>)
        requires
            self.wf(),
        ensures
            entries@.len() == found(self@.log, search@).len(),
            forall|k: int|
                0 <= k < entries@.len() ==> (#[trigger] entries@[k])@ == found(self@.log, search@)[k],
    {
        self.log.search(search)
    }

    /// How many alt-keys a search matches.
    pub fn search_count(&self, search: &str) -> (n: usize)
        requires
            self.wf(),
        ensures
            n == found(self@.log, search@).len(),
    {
        self.log.search_count(search)
    }

    /// Appends a transaction as it stands, timestamp included: the log takes
    /// it when its identifier is new and its timestamp is past every entry's,
    /// and refuses it with `Storage` otherwise.
    pub fn write_transaction(&mut self, transaction: Transaction) -> (res: Result<(), Error>)
        requires
            old(self).wf(),
        ensures
            final(self).wf(),
            final(self).spec_path() == old(self).spec_path(),
            match res {
                Ok(_) => accepts(old(self)@.log, transaction@) && final(self)@ == old(
                    self,
                )@.with_transaction(transaction@),
                Err(e) => e == Error::Storage && !accepts(old(self)@.log, transaction@) && final(self)@
                    == old(self)@,
            },
    {
        if self.log.contains_id(transaction.id) {
            return Err(Error::Storage);
        }
        let n = self.log.len();
        if n > 0 && self.log.entry(n - 1).timestamp >= transaction.timestamp {
            return Err(Error::Storage);
        }
        self.forms.apply(&transaction, &self.blobs);
        let ghost log_before = self.log@;
        let ghost added = transaction@;
        let appended = self.log.append(transaction);
        proof {
            assert(appended is Ok);
            assert(self.log@.drop_last() =~= log_before);
            assert(self.log@.last() == added);
        }
        Ok(())
    }

    /// Appends a peer's transaction when the clock reads `now`: the
    /// transaction keeps its identifier, kind, action, blob and alt-key, and
    /// gets this node's next timestamp. `Storage` where the identifier is in
    /// the log already or time has run out.
    pub fn write_foreign_transaction_at(&mut self, transaction: Transaction, now: i64) -> (res: Result<
        (),
        Error,
    >)
        requires
            old(self).wf(),
        ensures
            final(self).wf(),
            final(self).spec_path() == old(self).spec_path(),
            match res {
                Ok(_) => !has_id(old(self)@.log, transaction@.id) && next_timestamp(old(self)@.log, now)
                    <= i64::MAX && final(self)@ == old(self)@.with_transaction(
                    transaction@.at(next_timestamp(old(self)@.log, now) as i64),
                ),
                Err(e) => e == Error::Storage && (has_id(old(self)@.log, transaction@.id)
                    || next_timestamp(old(self)@.log, now) > i64::MAX) && final(self)@ == old(self)@,
            },
    {
        let timestamp = match self.log.tick(now) {
            Ok(t) => t,
            Err(e) => {
                return Err(e);
            },
        };
        let mut transaction = transaction;
        transaction.timestamp = timestamp;
        self.write_transaction(transaction)
    }

    /// Appends a peer's transaction under this node's clock: the transaction
    /// keeps its identifier, kind, action, blob and alt-key. `Storage` where
    /// the identifier is in the log already or the last entry stands at the
    /// end of time, and on no other input.
    pub fn write_foreign_transaction(&mut self, transaction: Transaction) -> (res: Result<(), Error>)
        requires
            old(self).wf(),
        ensures
            final(self).wf(),
            final(self).spec_path() == old(self).spec_path(),
            match res {
                Ok(_) => !has_id(old(self)@.log, transaction@.id) && exists|timestamp: i64|
                    accepts(old(self)@.log, transaction@.at(timestamp)) && final(self)@ == old(
                        self,
                    )@.with_transaction(#[trigger] transaction@.at(timestamp)),
                Err(e) => e == Error::Storage && final(self)@ == old(self)@ && (has_id(
                    old(self)@.log,
                    transaction@.id,
                ) || (old(self)@.log.len() > 0 && old(self)@.log.last().timestamp == i64::MAX)),
            },
    {
        let now = now_micros();
        let ghost timestamp = next_timestamp(self@.log, now) as i64;
        let res = self.write_foreign_transaction_at(transaction, now);
        proof {
            if res is Ok {
                assert(accepts(old(self)@.log, transaction@.at(timestamp)));
                assert(final(self)@ == old(self)@.with_transaction(transaction@.at(timestamp)));
            }
        }
        res
    }

    /// The transaction with the identifier `id`.
    pub fn get_transaction(&self, id: u128) -> (res: Result<Transaction, Error>)
        requires
            self.wf(),
        ensures
            match res {
                Ok(t) => by_id(self@.log, id) == Some(t@),
                Err(e) => e == Error::NotFound && by_id(self@.log, id) is None,
            },
    {
        match self.log.get(id) {
            Ok(t) => Ok(t.duplicate()),
            Err(e) => Err(e),
        }
    }

    /// The transaction that follows the one with the identifier `id`: nothing
    /// when that one is the last, `NotFound` when the log holds none with the
    /// identifier.
    pub fn get_transaction_after(&self, id: u128) -> (res: Result<Option<Transaction>, Error>)
        requires
            self.wf(),
        ensures
            match res {
                Ok(Some(t)) => successor(self@.log, id) == Some(t@),
                Ok(None) => by_id(self@.log, id) is Some && successor(self@.log, id) is None,
                Err(e) => e == Error::NotFound && by_id(self@.log, id) is None,
            },
    {
        match self.log.after(id) {
            Ok(Some(t)) => Ok(Some(t.duplicate())),
            Ok(None) => Ok(None),
            Err(e) => Err(e),
        }
    }

    /// The oldest transaction.
    pub fn first_transaction(&self) -> (res: Option<Transaction>)
        requires
            self.wf(),
        ensures
            match res {
                Some(t) => self@.log.len() > 0 && t@ == self@.log[0],
                None => self@.log.len() == 0,
            },
    {
        match self.log.first() {
            Some(t) => Some(t.duplicate()),
            None => None,
        }
    }

    /// Re-asserts the transaction `id` under the new identifier `new_id` when
    /// the clock reads `now`: appends, for the same entity and blob, an add
    /// where the entity is tombstoned and an edit where it is live.
    /// `NotFound` where the log holds no transaction `id`, `Storage` where
    /// `new_id` is taken or time has run out.
    pub fn restore_transaction_at(&mut self, id: u128, new_id: u128, now: i64) -> (res: Result<(), Error>)
        requires
            old(self).wf(),
        ensures
            final(self).wf(),
            final(self).spec_path() == old(self).spec_path(),
            match res {
                Ok(_) => by_id(old(self)@.log, id) matches Some(t) && !has_id(old(self)@.log, new_id)
                    && next_timestamp(old(self)@.log, now) <= i64::MAX && final(self)@ == old(
                    self,
                )@.with_transaction(restored(old(self)@.log, t, new_id, now)),
                Err(e) => final(self)@ == old(self)@ && match e {
                    Error::NotFound => by_id(old(self)@.log, id) is None,
                    Error::Storage => by_id(old(self)@.log, id) is Some && (has_id(
                        old(self)@.log,
                        new_id,
                    ) || next_timestamp(old(self)@.log, now) > i64::MAX),
                    _ => false,
                },
            },
    {
        let ghost log_before = self.log@;
        match self.log.restore(id, new_id, now) {
            Ok(_) => {
                let n = self.log.len();
                assert(self.log@.drop_last() =~= log_before);
                self.forms.apply(self.log.entry(n - 1), &self.blobs);
                Ok(())
            },
            Err(e) => Err(e),
        }
    }

    /// Re-asserts the transaction `id` under a fresh identifier and this
    /// node's clock.
    pub fn restore_transaction(&mut self, id: u128) -> (res: Result<(), Error>)
        requires
            old(self).wf(),
        ensures
            final(self).wf(),
            final(self).spec_path() == old(self).spec_path(),
            match res {
                Ok(_) => by_id(old(self)@.log, id) matches Some(t) && exists|new_id: u128, now: i64|
                    !has_id(old(self)@.log, new_id) && next_timestamp(old(self)@.log, now) <= i64::MAX
                        && final(self)@ == old(self)@.with_transaction(
                        #[trigger] restored(old(self)@.log, t, new_id, now),
                    ),
                Err(e) => final(self)@ == old(self)@ && match e {
                    Error::NotFound => by_id(old(self)@.log, id) is None,
                    Error::Storage => by_id(old(self)@.log, id) is Some,
                    _ => false,
                },
            },
    {
        let new_id = fresh_id();
        let now = now_micros();
        self.restore_transaction_at(id, new_id, now)
    }

    /// Replaces the peer's watermark: the last of the peer's transactions
    /// that this node has taken over.
    pub fn update_watermark(&mut self, owner_id: u128, transaction_id: u128)
        requires
            old(self).wf(),
        ensures
            final(self).wf(),
            final(self).spec_path() == old(self).spec_path(),
            final(self)@ == (StoreView {
                watermarks: old(self)@.watermarks.insert(owner_id, transaction_id),
                ..old(self)@
            }),
    {
        self.watermarks.set(owner_id, transaction_id);
    }

    /// The peer's watermark, if this node has taken over any of the peer's
    /// transactions.
    pub fn get_watermark(&self, owner_id: u128) -> (res: Option<u128>)
        requires
            self.wf(),
        ensures
            match res {
                Some(id) => self@.watermarks.contains_key(owner_id) && self@.watermarks[owner_id] == id,
                None => !self@.watermarks.contains_key(owner_id),
            },
    {
        self.watermarks.get(owner_id)
    }

    /// Notes that the blob is awaited from the peer.
    pub fn add_needed_blob(&mut self, owner_id: u128, blob_id: u128)
        requires
            old(self).wf(),
        ensures
            final(self).wf(),
            final(self).spec_path() == old(self).spec_path(),
            final(self)@ == (StoreView {
                needed: old(self)@.needed.insert((owner_id, blob_id)),
                ..old(self)@
            }),
    {
        self.needed.insert(owner_id, blob_id);
    }

    /// The blobs awaited from the peer, each once.
    pub fn get_needed_blobs(&self, owner_id: u128) -> (blob_ids: Vec<u128>)
        requires
            self.wf(),
        ensures
            forall|blob_id: u128|
                blob_ids@.contains(blob_id) <==> self@.needed.contains((owner_id, blob_id)),
            blob_ids@.no_duplicates(),
    {
        self.needed.of(owner_id)
    }
}

} // verus!
