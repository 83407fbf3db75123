use vstd::prelude::*;
use vstd::utf8::encode_utf8;
use crate::bytes::{framed, lemma_frame_round_trip, unframed};
use crate::datatypes::{FilterView, SummaryView};
use crate::forms_index::{entry_of, hits, indexable, lemma_hits, lemma_replay, replay, EntryView};
use crate::ids::Stamp;
use crate::log::{
    chronological, is_live, latest, lemma_latest_has_max_timestamp, next_timestamp,
};
use crate::blob_store::BlobView;
use crate::log::has_id;
use crate::storage_manager::{StorageManager, StoreView};
use crate::error::Error;
use crate::sync::{
    applied, backoff_millis, can_apply, one_more, pull_step, received, PullAction, PullEventView,
    PullStateView, Request,
};
use crate::tables::arrived;
use crate::transactions::{Action, DataType, TransactionView};

verus! {

/// Round trip: after an entity was added with a payload, the entity's
/// serialized form is that payload.
pub proof fn lemma_add_then_get(
    store: StoreView,
    data_type: DataType,
    alt_key: Seq<char>,
    payload: Seq<u8>,
    summary: Option<SummaryView>,
    stamp: Stamp,
)
    ensures
        store.written(data_type, Action::Add, alt_key, payload, summary, stamp).serialized(
            data_type,
            alt_key,
        ) == Some(payload),
{
    let after = store.written(data_type, Action::Add, alt_key, payload, summary, stamp);
    let t = store.stamped(data_type, Action::Add, stamp.blob_id, alt_key, stamp);
    assert(after.log.last() == t);
    assert(latest(after.log, data_type, alt_key) == Some(t));
}

/// Round trip for edits: after a live entity was edited to a payload, the
/// entity's serialized form is that payload.
pub proof fn lemma_edit_then_get(
    store: StoreView,
    data_type: DataType,
    alt_key: Seq<char>,
    payload: Seq<u8>,
    summary: Option<SummaryView>,
    stamp: Stamp,
)
    ensures
        store.written(data_type, Action::Edit, alt_key, payload, summary, stamp).serialized(
            data_type,
            alt_key,
        ) == Some(payload),
{
    let after = store.written(data_type, Action::Edit, alt_key, payload, summary, stamp);
    let t = store.stamped(data_type, Action::Edit, stamp.blob_id, alt_key, stamp);
    assert(after.log.last() == t);
    assert(latest(after.log, data_type, alt_key) == Some(t));
}

/// Round trip for bytes entities: after a bytes entity was added, its blob
/// frames the alt-key and the payload it was added with, so that reading it
/// gives the payload back.
pub proof fn lemma_bytes_add_then_get(store: StoreView, alt_key: Seq<char>, payload: Seq<u8>, stamp: Stamp)
    requires
        encode_utf8(alt_key).len() <= u64::MAX,
    ensures
        store.written(
            DataType::Bytes,
            Action::Add,
            alt_key,
            framed(alt_key, payload),
            None,
            stamp,
        ).serialized(DataType::Bytes, alt_key) matches Some(blob) && unframed(blob) == Some(
            (alt_key, payload),
        ),
{
    lemma_add_then_get(store, DataType::Bytes, alt_key, framed(alt_key, payload), None, stamp);
    lemma_frame_round_trip(alt_key, payload);
}

/// After a delete, the entity has no serialized form.
pub proof fn lemma_delete_then_get(
    store: StoreView,
    data_type: DataType,
    alt_key: Seq<char>,
    blob_id: u128,
    stamp: Stamp,
)
    ensures
        store.marked(data_type, Action::Delete, alt_key, blob_id, stamp).serialized(data_type, alt_key)
            is None,
        !is_live(store.marked(data_type, Action::Delete, alt_key, blob_id, stamp).log, data_type, alt_key),
{
    let after = store.marked(data_type, Action::Delete, alt_key, blob_id, stamp);
    let t = store.stamped(data_type, Action::Delete, blob_id, alt_key, stamp);
    assert(after.log.last() == t);
    assert(latest(after.log, data_type, alt_key) == Some(t));
}

/// A write about one entity leaves every other entity's serialized form as
/// it was, provided that no transaction names the blob it stores.
pub proof fn lemma_write_is_local(
    store: StoreView,
    data_type: DataType,
    action: Action,
    alt_key: Seq<char>,
    payload: Seq<u8>,
    summary: Option<SummaryView>,
    stamp: Stamp,
    other_type: DataType,
    other_key: Seq<char>,
)
    requires
        forall|i: int| 0 <= i < store.log.len() ==> (#[trigger] store.log[i]).blob_id != stamp.blob_id,
        other_type != data_type || other_key != alt_key,
    ensures
        store.written(data_type, action, alt_key, payload, summary, stamp).serialized(
            other_type,
            other_key,
        ) == store.serialized(other_type, other_key),
{
    let after = store.written(data_type, action, alt_key, payload, summary, stamp);
    let t = store.stamped(data_type, action, stamp.blob_id, alt_key, stamp);
    assert(after.log.last() == t);
    assert(after.log.drop_last() =~= store.log);
    assert(latest(after.log, other_type, other_key) == latest(store.log, other_type, other_key));
    crate::log::lemma_latest_is_current(store.log, other_type, other_key);
}

/// Last writer wins: among the transactions about one entity, the one with
/// the greatest timestamp defines the entity's state. Where it is an add or
/// an edit, the entity's serialized form is that transaction's blob; where
/// it is a delete, the entity has none.
pub proof fn lemma_last_writer_wins(
    store: StoreView,
    data_type: DataType,
    alt_key: Seq<char>,
    last: TransactionView,
)
    requires
        chronological(store.log),
        store.log.contains(last),
        last.concerns(data_type, alt_key),
        forall|i: int|
            0 <= i < store.log.len() && (#[trigger] store.log[i]).concerns(data_type, alt_key)
                ==> store.log[i].timestamp <= last.timestamp,
    ensures
        latest(store.log, data_type, alt_key) == Some(last),
        store.serialized(data_type, alt_key) == if last.action == Action::Delete
            || !store.blobs.contains_key(last.blob_id) {
            None
        } else {
            Some(store.blobs[last.blob_id].data)
        },
{
    lemma_latest_has_max_timestamp(store.log, data_type, alt_key);
    let i = choose|i: int| 0 <= i < store.log.len() && store.log[i] == last;
    assert(store.log[i].concerns(data_type, alt_key));
    let found = latest(store.log, data_type, alt_key).unwrap();
    let j = choose|j: int| 0 <= j < store.log.len() && store.log[j] == found;
    assert(store.log[j].concerns(data_type, alt_key));
    if i < j {
        assert(store.log[i].timestamp < store.log[j].timestamp);
    } else if j < i {
        assert(store.log[j].timestamp < store.log[i].timestamp);
    }
}

/// Idempotent delete: once a form was deleted, whether that appended a
/// delete or found the form tombstoned, the form's most recent transaction
/// is a delete. A second delete therefore finds the form tombstoned: it
/// succeeds and leaves the store as it is.
pub proof fn lemma_delete_is_idempotent(store: StoreView, id: Seq<char>, stamp: Stamp)
    requires
        latest(store.log, DataType::Form, id) is Some,
    ensures
        ({
            let t = latest(store.log, DataType::Form, id).unwrap();
            let after = if t.action == Action::Delete {
                store
            } else {
                store.marked(DataType::Form, Action::Delete, id, t.blob_id, stamp)
            };
            latest(after.log, DataType::Form, id) matches Some(u) && u.action == Action::Delete
        }),
{
    let t = latest(store.log, DataType::Form, id).unwrap();
    if t.action != Action::Delete {
        let after = store.marked(DataType::Form, Action::Delete, id, t.blob_id, stamp);
        let d = store.stamped(DataType::Form, Action::Delete, t.blob_id, id, stamp);
        assert(after.log.last() == d);
    }
}

/// Filter completeness: a live form whose current version the store holds
/// and knows for a form, filed under the template and passing every
/// predicate of the filter, is among the search's results.
pub proof fn lemma_filter_is_complete(
    store: StoreView,
    template: Seq<char>,
    filter: FilterView,
    form: Seq<char>,
)
    requires
        store.index == replay(store.log, store.blobs),
        latest(store.log, DataType::Form, form) matches Some(t) && indexable(t, store.blobs)
            && store.blobs[t.blob_id].summary.unwrap().passes(template, filter),
    ensures
        hits(store.index, template, filter).contains(latest(store.log, DataType::Form, form).unwrap().blob_id),
{
    let t = latest(store.log, DataType::Form, form).unwrap();
    let e = entry_of(t, store.blobs);
    lemma_replay(store.log, store.blobs);
    crate::log::lemma_latest_is_current(store.log, DataType::Form, form);
    assert(e.form == form);
    assert(replay(store.log, store.blobs).contains(e));
    let i = choose|i: int| 0 <= i < store.index.len() && store.index[i] == e;
    lemma_hits(store.index, template, filter);
    assert(store.index[i].blob_id == t.blob_id && store.index[i].summary.passes(template, filter));
}

/// Whether the blob is the current version of the form and the store knows
/// it for a form.
pub open spec fn current_form(store: StoreView, form: Seq<char>, blob_id: u128) -> bool {
    match latest(store.log, DataType::Form, form) {
        Some(t) => t.blob_id == blob_id && indexable(t, store.blobs),
        None => false,
    }
}

/// Filter soundness: each result of a search is the current version of a
/// live form that is filed under the template and passes every predicate of
/// the filter. A deleted form is never among the results.
pub proof fn lemma_filter_is_sound(store: StoreView, template: Seq<char>, filter: FilterView, blob_id: u128)
    requires
        store.index == replay(store.log, store.blobs),
        hits(store.index, template, filter).contains(blob_id),
    ensures
        exists|form: Seq<char>| #[trigger]
            is_live(store.log, DataType::Form, form) && current_form(store, form, blob_id)
                && store.blobs[blob_id].summary.unwrap().passes(template, filter),
{
    lemma_hits(store.index, template, filter);
    let i = choose|i: int|
        0 <= i < store.index.len() && (#[trigger] store.index[i]).blob_id == blob_id
            && store.index[i].summary.passes(template, filter);
    let e = store.index[i];
    lemma_replay(store.log, store.blobs);
    assert(store.index.contains(e));
    assert(latest(store.log, DataType::Form, e.form) is Some);
    assert(is_live(store.log, DataType::Form, e.form) && current_form(store, e.form, blob_id));
}

/// The index is derivable: the forms index that the engine keeps is the
/// index that replaying the log over the blobs builds, so that the two hold
/// the same rows, each as often.
pub proof fn lemma_index_is_derivable(manager: &StorageManager)
    requires
        manager.wf(),
    ensures
        manager@.index == replay(manager@.log, manager@.blobs),
        manager@.index.map_values(|e: EntryView| e.row()).to_multiset() == replay(
            manager@.log,
            manager@.blobs,
        ).map_values(|e: EntryView| e.row()).to_multiset(),
{
    manager.lemma_wf();
}

/// Replication preserves identity: a peer's transaction that is appended
/// under this node's clock keeps its identifier, kind, action, blob and
/// alt-key, and its timestamp here is greater than every earlier one's.
pub proof fn lemma_foreign_append(log: Seq<TransactionView>, t: TransactionView, now: i64)
    requires
        chronological(log),
        next_timestamp(log, now) <= i64::MAX,
    ensures
        ({
            let local = t.at(next_timestamp(log, now) as i64);
            &&& local.id == t.id
            &&& local.data_type == t.data_type
            &&& local.action == t.action
            &&& local.blob_id == t.blob_id
            &&& local.alt_key == t.alt_key
            &&& forall|i: int| 0 <= i < log.len() ==> (#[trigger] log[i]).timestamp < local.timestamp
            &&& chronological(log.push(local))
        }),
{
    let local = t.at(next_timestamp(log, now) as i64);
    assert forall|i: int| 0 <= i < log.len() implies (#[trigger] log[i]).timestamp < local.timestamp by {
        if i < log.len() - 1 {
            assert(log[i].timestamp < log[log.len() - 1].timestamp);
        }
    }
}

/// Whether the log holds a transaction with the identifier `id` whose blob
/// the store holds.
pub open spec fn taken_over(store: StoreView, id: u128) -> bool {
    exists|i: int|
        0 <= i < store.log.len() && (#[trigger] store.log[i]).id == id && store.blobs.contains_key(
            store.log[i].blob_id,
        )
}

/// A step of the pull loop only adds: the log grows at its end, and a blob
/// that the store holds stays as it is. A watermark moves only to a
/// transaction that the log holds, and where the step appended that
/// transaction, the store holds its blob. A failed request leaves the store
/// as it is.
pub proof fn lemma_pull_step_only_adds(
    state: PullStateView,
    has_parent: bool,
    store: StoreView,
    event: PullEventView,
    now: i64,
)
    ensures
        ({
            let after = pull_step(state, has_parent, store, event, now).1;
            &&& store.log.is_prefix_of(after.log)
            &&& after.log.len() <= store.log.len() + 1
            &&& store.blobs.submap_of(after.blobs)
            &&& forall|owner: u128|
                after.watermarks.contains_key(owner) && !(store.watermarks.contains_key(owner)
                    && store.watermarks[owner] == after.watermarks[owner]) ==> has_id(
                    after.log,
                    #[trigger] after.watermarks[owner],
                ) && (has_id(store.log, after.watermarks[owner]) || taken_over(
                    after,
                    after.watermarks[owner],
                ))
            &&& forall|owner: u128|
                store.watermarks.contains_key(owner) ==> after.watermarks.contains_key(owner)
            &&& event is Failed ==> after == store
        }),
{
    let after = pull_step(state, has_parent, store, event, now).1;
    match (state, event) {
        (PullStateView::Polling { parent, attempts }, PullEventView::Next(Some(t))) => {
            if store.blobs.contains_key(t.blob_id) && can_apply(store, t, now) {
                lemma_applied(store, parent, t, now);
            }
        },
        (
            PullStateView::FetchingBlob { parent, transaction, attempts },
            PullEventView::Blob { data, summary },
        ) => {
            if can_apply(store, transaction, now) {
                let got = received(store, transaction.blob_id, BlobView { data, summary });
                assert(got.blobs.contains_key(transaction.blob_id));
                assert(store.blobs.submap_of(got.blobs));
                assert(got.log == store.log);
                lemma_applied(got, parent, transaction, now);
            }
        },
        _ => {},
    }
}

/// What taking over a transaction whose blob the store holds does: the log
/// grows by at most that transaction, and the parent's watermark moves to
/// it.
proof fn lemma_applied(store: StoreView, parent: u128, t: TransactionView, now: i64)
    requires
        store.blobs.contains_key(t.blob_id),
        can_apply(store, t, now),
    ensures
        ({
            let after = applied(store, parent, t, now);
            &&& store.log.is_prefix_of(after.log)
            &&& after.log.len() <= store.log.len() + 1
            &&& after.blobs == store.blobs
            &&& after.watermarks == store.watermarks.insert(parent, t.id)
            &&& has_id(after.log, t.id)
            &&& has_id(store.log, t.id) || taken_over(after, t.id)
        }),
{
    let after = applied(store, parent, t, now);
    if has_id(store.log, t.id) {
        assert(after.log == store.log);
    } else {
        assert(after.log[store.log.len() as int].id == t.id);
    }
}

/// A blob request that fails for a while is made again: the store stays as
/// it is, so that the watermark does not move, the transaction is not
/// appended and the blob is still awaited; the session keeps the transaction
/// and counts the failure, and the same blob is asked for after the pause.
pub proof fn lemma_failed_fetch_is_retried(
    parent: u128,
    transaction: TransactionView,
    attempts: u32,
    has_parent: bool,
    store: StoreView,
    now: i64,
)
    ensures
        pull_step(
            PullStateView::FetchingBlob { parent, transaction, attempts },
            has_parent,
            store,
            PullEventView::Failed(Error::Transient),
            now,
        ) == (
            PullStateView::FetchingBlob { parent, transaction, attempts: one_more(attempts) },
            store,
            PullAction::Send {
                request: Request::Blob(transaction.blob_id),
                delay_millis: backoff_millis(attempts) as u64,
            },
        ),
{
}

/// A transaction whose blob the store lacks is not applied but waited for:
/// the blob is noted as awaited from the parent and asked for, and the log
/// and the watermarks stay as they are.
pub proof fn lemma_missing_blob_is_fetched(
    parent: u128,
    attempts: u32,
    transaction: TransactionView,
    has_parent: bool,
    store: StoreView,
    now: i64,
)
    requires
        !store.blobs.contains_key(transaction.blob_id),
    ensures
        pull_step(
            PullStateView::Polling { parent, attempts },
            has_parent,
            store,
            PullEventView::Next(Some(transaction)),
            now,
        ) == (
            PullStateView::FetchingBlob { parent, transaction, attempts: 0 },
            StoreView { needed: store.needed.insert((parent, transaction.blob_id)), ..store },
            PullAction::Send { request: Request::Blob(transaction.blob_id), delay_millis: 0 },
        ),
{
}

/// When the awaited blob arrives, the transaction is applied in one step:
/// the blob is stored with the bytes that came, the transaction is appended
/// once under its own identifier and this node's next timestamp, the
/// parent's watermark moves to it, the blob is no longer awaited, and the
/// transaction after it is asked for.
pub proof fn lemma_fetched_blob_is_applied(
    parent: u128,
    transaction: TransactionView,
    attempts: u32,
    has_parent: bool,
    store: StoreView,
    data: Seq<u8>,
    summary: Option<SummaryView>,
    now: i64,
)
    requires
        !has_id(store.log, transaction.id),
        !store.blobs.contains_key(transaction.blob_id),
        next_timestamp(store.log, now) <= i64::MAX,
    ensures
        ({
            let (state, after, action) = pull_step(
                PullStateView::FetchingBlob { parent, transaction, attempts },
                has_parent,
                store,
                PullEventView::Blob { data, summary },
                now,
            );
            &&& state == (PullStateView::Polling { parent, attempts: 0 })
            &&& action == (PullAction::Send { request: Request::After(transaction.id), delay_millis: 0 })
            &&& after.log == store.log.push(transaction.at(next_timestamp(store.log, now) as i64))
            &&& after.blobs == store.blobs.insert(transaction.blob_id, BlobView { data, summary })
            &&& after.watermarks == store.watermarks.insert(parent, transaction.id)
            &&& after.needed == arrived(store.needed, transaction.blob_id)
            &&& forall|owner: u128| !after.needed.contains((owner, transaction.blob_id))
        }),
{
}

} // verus!
