use vstd::prelude::*;
use crate::blob_store::BlobView;
use crate::datatypes::{FormSummary, SummaryView};
use crate::error::Error;
use crate::ids::now_micros;
use crate::log::{
    by_id, distinct_ids, has_id, is_current, latest, live_keys, live_keys_upto, mentions, next_timestamp,
    position_of, successor,
};
use crate::storage_manager::{summary_view, StorageManager, StoreView};
use crate::tables::arrived;
use crate::transactions::{DataType, Transaction, TransactionView};

verus! {

/// The identifier of a node, as a peer presents it.
#[derive(Clone, Copy, Debug, PartialEq, Eq, Structural, Hash)]
pub struct ChildID(pub u128);

/// The shortest pause before a failed request is made again, in milliseconds.
pub const BACKOFF_BASE_MILLIS: u64 = 250;

/// The longest pause before a failed request is made again, in milliseconds.
pub const BACKOFF_CAP_MILLIS: u64 = 60_000;

/// Two to the power `n`.
pub open spec fn pow2(n: nat) -> nat
    decreases n,
{
    if n == 0 {
        1
    } else {
        2 * pow2((n - 1) as nat)
    }
}

/// The pause before a request that has failed `attempts` times before is made
/// again: the base doubled that many times, and never more than the cap.
pub open spec fn backoff_millis(attempts: u32) -> nat {
    if BACKOFF_BASE_MILLIS * pow2(attempts as nat) <= BACKOFF_CAP_MILLIS {
        BACKOFF_BASE_MILLIS as nat * pow2(attempts as nat)
    } else {
        BACKOFF_CAP_MILLIS as nat
    }
}

/// Powers of two grow.
pub proof fn lemma_pow2_grows(a: nat, b: nat)
    requires
        a <= b,
    ensures
        1 <= pow2(a) <= pow2(b),
    decreases b,
{
    if b > 0 {
        if a < b {
            lemma_pow2_grows(a, (b - 1) as nat);
        } else {
            lemma_pow2_grows((a - 1) as nat, (b - 1) as nat);
        }
    }
}

/// The pause grows with the number of failures and stays within its bounds.
pub proof fn lemma_backoff_bounded(a: u32, b: u32)
    requires
        a <= b,
    ensures
        BACKOFF_BASE_MILLIS <= backoff_millis(a) <= backoff_millis(b) <= BACKOFF_CAP_MILLIS,
{
    lemma_pow2_grows(0, a as nat);
    lemma_pow2_grows(a as nat, b as nat);
    assert(BACKOFF_BASE_MILLIS * pow2(a as nat) <= BACKOFF_BASE_MILLIS * pow2(b as nat)) by (nonlinear_arith)
        requires
            pow2(a as nat) <= pow2(b as nat),
    ;
    assert(BACKOFF_BASE_MILLIS * 1 <= BACKOFF_BASE_MILLIS * pow2(a as nat)) by (nonlinear_arith)
        requires
            1 <= pow2(a as nat),
    ;
}

/// The pause before a request that has failed `attempts` times before is made
/// again.
pub fn backoff(attempts: u32) -> (millis: u64)
    ensures
        millis == backoff_millis(attempts),
        BACKOFF_BASE_MILLIS <= millis <= BACKOFF_CAP_MILLIS,
{
    let mut millis: u64 = BACKOFF_BASE_MILLIS;
    let mut i: u32 = 0;
    while i < attempts
        invariant
            i <= attempts,
            BACKOFF_BASE_MILLIS <= millis <= BACKOFF_CAP_MILLIS,
            millis == backoff_millis(i),
        decreases attempts - i,
    {
        proof {
            lemma_backoff_bounded(i, (i + 1) as u32);
            lemma_backoff_bounded((i + 1) as u32, attempts);
            assert(pow2((i + 1) as nat) == 2 * pow2(i as nat));
            assert(BACKOFF_BASE_MILLIS * pow2((i + 1) as nat) == 2 * (BACKOFF_BASE_MILLIS * pow2(
                i as nat,
            ))) by (nonlinear_arith)
                requires
                    pow2((i + 1) as nat) == 2 * pow2(i as nat),
            ;
        }
        if millis > BACKOFF_CAP_MILLIS / 2 {
            millis = BACKOFF_CAP_MILLIS;
            proof {
                lemma_backoff_bounded((i + 1) as u32, attempts);
            }
            assert(backoff_millis(attempts) == BACKOFF_CAP_MILLIS);
            return millis;
        }
        millis = millis * 2;
        i += 1;
    }
    proof {
        lemma_backoff_bounded(attempts, attempts);
    }
    millis
}

/// The error that a request's failure stands for, by the status that the
/// parent answered with, if it answered, and by whether its answer could not
/// be read. A refusal ends the cycle: 401 and 403 are `AuthDenied`, 404 is
/// `NotFound`, 400 and an answer that cannot be read are `Decode`. Everything
/// else, a timeout among it, is `Transient` and worth a retry.
pub open spec fn failure(status: Option<u16>, decode: bool) -> Error {
    if status == Some(401u16) || status == Some(403u16) {
        Error::AuthDenied
    } else if status == Some(404u16) {
        Error::NotFound
    } else if status == Some(400u16) || decode {
        Error::Decode
    } else {
        Error::Transient
    }
}

/// The error that a request's failure stands for.
pub fn failure_of(status: Option<u16>, decode: bool) -> (e: Error)
    ensures
        e == failure(status, decode),
        e.is_transient() <==> !decode && status != Some(400u16) && status != Some(401u16) && status
            != Some(403u16) && status != Some(404u16),
{
    match status {
        Some(401) | Some(403) => Error::AuthDenied,
        Some(404) => Error::NotFound,
        Some(400) => Error::Decode,
        _ => if decode {
            Error::Decode
        } else {
            Error::Transient
        },
    }
}

/// What a node asks of its parent.
#[derive(Clone, Copy, Debug, PartialEq, Eq, Structural)]
pub enum Request {
    /// The parent's node identifier.
    ParentId,
    /// The parent's oldest transaction.
    First,
    /// The transaction that follows the one with this identifier.
    After(u128),
    /// The bytes of the blob with this identifier.
    Blob(u128),
}

/// What the pull loop's driver is to do after a step.
#[derive(Clone, Copy, Debug, PartialEq, Eq, Structural)]
pub enum PullAction {
    /// Pause for `delay_millis`, then send the request to the parent and hand
    /// back its answer.
    Send { request: Request, delay_millis: u64 },
    /// Nothing is outstanding: hand back a tick when the poll timer fires.
    Wait,
    /// The cycle is over: the error is to be surfaced.
    Abort(Error),
    /// Nothing changed: no parent is configured, or the event does not
    /// belong to the session's state.
    Nothing,
}

/// What the driver hands back to the pull loop.
#[derive(Clone, Debug, PartialEq, Eq)]
pub enum PullEvent {
    /// The session is to begin.
    Start,
    /// The parent's answer to `Request::ParentId`.
    ParentId(u128),
    /// The parent's answer to `Request::First` or `Request::After`.
    Next(Option<Transaction>),
    /// The parent's answer to `Request::Blob`, with the summary of the form
    /// that the bytes hold where they hold one.
    Blob { data: Vec<u8>, summary: Option<FormSummary> },
    /// The outstanding request failed.
    Failed(Error),
    /// The poll timer fired.
    Tick,
}

/// An event as a mathematical value.
pub enum PullEventView {
    Start,
    ParentId(u128),
    Next(Option<TransactionView>),
    Blob { data: Seq<u8>, summary: Option<SummaryView> },
    Failed(Error),
    Tick,
}

impl View for PullEvent {
    type V = PullEventView;

    open spec fn view(&self) -> PullEventView {
        match self {
            PullEvent::Start => PullEventView::Start,
            PullEvent::ParentId(id) => PullEventView::ParentId(*id),
            PullEvent::Next(next) => PullEventView::Next(
                match next {
                    Some(t) => Some(t@),
                    None => None,
                },
            ),
            PullEvent::Blob { data, summary } => PullEventView::Blob {
                data: data@,
                summary: summary_view(*summary),
            },
            PullEvent::Failed(e) => PullEventView::Failed(*e),
            PullEvent::Tick => PullEventView::Tick,
        }
    }
}

/// Where a pull session stands.
#[derive(Clone, Debug, PartialEq, Eq)]
pub enum PullState {
    /// No session is under way.
    Unstarted,
    /// The parent's node identifier has been asked for; `attempts` requests
    /// for it have failed.
    AwaitingId { attempts: u32 },
    /// The parent's next transaction has been asked for; `attempts` requests
    /// for it have failed.
    Polling { parent: u128, attempts: u32 },
    /// The parent had nothing new; the poll timer runs.
    Idle { parent: u128 },
    /// The blob of the parent's transaction has been asked for; `attempts`
    /// requests for it have failed.
    FetchingBlob { parent: u128, transaction: Transaction, attempts: u32 },
}

/// A session's state as a mathematical value.
pub enum PullStateView {
    Unstarted,
    AwaitingId { attempts: u32 },
    Polling { parent: u128, attempts: u32 },
    Idle { parent: u128 },
    FetchingBlob { parent: u128, transaction: TransactionView, attempts: u32 },
}

impl View for PullState {
    type V = PullStateView;

    open spec fn view(&self) -> PullStateView {
        match self {
            PullState::Unstarted => PullStateView::Unstarted,
            PullState::AwaitingId { attempts } => PullStateView::AwaitingId { attempts: *attempts },
            PullState::Polling { parent, attempts } => PullStateView::Polling {
                parent: *parent,
                attempts: *attempts,
            },
            PullState::Idle { parent } => PullStateView::Idle { parent: *parent },
            PullState::FetchingBlob { parent, transaction, attempts } => PullStateView::FetchingBlob {
                parent: *parent,
                transaction: transaction@,
                attempts: *attempts,
            },
        }
    }
}

/// One more failed attempt, as far as the counter goes.
pub open spec fn one_more(attempts: u32) -> u32 {
    if attempts < u32::MAX {
        (attempts + 1) as u32
    } else {
        attempts
    }
}

/// The request for the transaction that follows the parent's watermark: the
/// parent's first where this node has taken over none.
pub open spec fn next_request(store: StoreView, parent: u128) -> Request {
    if store.watermarks.contains_key(parent) {
        Request::After(store.watermarks[parent])
    } else {
        Request::First
    }
}

/// Whether the parent's transaction `t` can be taken over when the clock
/// reads `now`: it is in the log already, or the log has a timestamp left
/// for it.
pub open spec fn can_apply(store: StoreView, t: TransactionView, now: i64) -> bool {
    has_id(store.log, t.id) || next_timestamp(store.log, now) <= i64::MAX
}

/// The store after the parent's transaction `t` was taken over when the
/// clock reads `now`: the transaction is appended under this node's next
/// timestamp, unless the log holds it already, and the parent's watermark
/// moves to it.
pub open spec fn applied(store: StoreView, parent: u128, t: TransactionView, now: i64) -> StoreView {
    let appended = if has_id(store.log, t.id) {
        store
    } else {
        store.with_transaction(t.at(next_timestamp(store.log, now) as i64))
    };
    StoreView { watermarks: appended.watermarks.insert(parent, t.id), ..appended }
}

/// The store with the blob `id`, where it did not hold one under that
/// identifier: the blob is no longer awaited.
pub open spec fn received(store: StoreView, id: u128, blob: BlobView) -> StoreView {
    if store.blobs.contains_key(id) {
        store
    } else {
        StoreView { needed: arrived(store.needed, id), ..store.with_blob(id, blob) }
    }
}

/// What a failed request leads to: the same request after a pause where the
/// failure is transient, the end of the cycle otherwise.
pub open spec fn after_failure(
    retry: PullStateView,
    request: Request,
    attempts: u32,
    e: Error,
) -> (PullStateView, PullAction) {
    if e.is_transient() {
        (retry, PullAction::Send { request, delay_millis: backoff_millis(attempts) as u64 })
    } else {
        (PullStateView::Unstarted, PullAction::Abort(e))
    }
}

/// The pull loop as a function: from a session's state, the store and an
/// event to the next state, the store after the step and what the driver is
/// to do. `has_parent` says whether a parent is configured, `now` is the
/// clock's reading.
///
/// A transaction is applied within the step that finds its blob in the
/// store: the step appends it and moves the watermark, and the session is
/// polling again when the step returns.
pub open spec fn pull_step(
    state: PullStateView,
    has_parent: bool,
    store: StoreView,
    event: PullEventView,
    now: i64,
) -> (PullStateView, StoreView, PullAction) {
    match (state, event) {
        (PullStateView::Unstarted, PullEventView::Start) => if has_parent {
            (
                PullStateView::AwaitingId { attempts: 0 },
                store,
                PullAction::Send { request: Request::ParentId, delay_millis: 0 },
            )
        } else {
            (state, store, PullAction::Nothing)
        },
        (PullStateView::AwaitingId { attempts }, PullEventView::ParentId(parent)) => (
            PullStateView::Polling { parent, attempts: 0 },
            store,
            PullAction::Send { request: next_request(store, parent), delay_millis: 0 },
        ),
        (PullStateView::AwaitingId { attempts }, PullEventView::Failed(e)) => {
            let (next, action) = after_failure(
                PullStateView::AwaitingId { attempts: one_more(attempts) },
                Request::ParentId,
                attempts,
                e,
            );
            (next, store, action)
        },
        (PullStateView::Polling { parent, attempts }, PullEventView::Next(None)) => (
            PullStateView::Idle { parent },
            store,
            PullAction::Wait,
        ),
        (PullStateView::Polling { parent, attempts }, PullEventView::Next(Some(t))) => if store.blobs.contains_key(
            t.blob_id,
        ) {
            if can_apply(store, t, now) {
                (
                    PullStateView::Polling { parent, attempts: 0 },
                    applied(store, parent, t, now),
                    PullAction::Send { request: Request::After(t.id), delay_millis: 0 },
                )
            } else {
                (PullStateView::Unstarted, store, PullAction::Abort(Error::Storage))
            }
        } else {
            (
                PullStateView::FetchingBlob { parent, transaction: t, attempts: 0 },
                StoreView { needed: store.needed.insert((parent, t.blob_id)), ..store },
                PullAction::Send { request: Request::Blob(t.blob_id), delay_millis: 0 },
            )
        },
        (PullStateView::Polling { parent, attempts }, PullEventView::Failed(e)) => {
            let (next, action) = after_failure(
                PullStateView::Polling { parent, attempts: one_more(attempts) },
                next_request(store, parent),
                attempts,
                e,
            );
            (next, store, action)
        },
        (PullStateView::Idle { parent }, PullEventView::Tick) => (
            PullStateView::Polling { parent, attempts: 0 },
            store,
            PullAction::Send { request: next_request(store, parent), delay_millis: 0 },
        ),
        (
            PullStateView::FetchingBlob { parent, transaction, attempts },
            PullEventView::Blob { data, summary },
        ) => if can_apply(store, transaction, now) {
            (
                PullStateView::Polling { parent, attempts: 0 },
                applied(
                    received(store, transaction.blob_id, BlobView { data, summary }),
                    parent,
                    transaction,
                    now,
                ),
                PullAction::Send { request: Request::After(transaction.id), delay_millis: 0 },
            )
        } else {
            (PullStateView::Unstarted, store, PullAction::Abort(Error::Storage))
        },
        (PullStateView::FetchingBlob { parent, transaction, attempts }, PullEventView::Failed(e)) => {
            let (next, action) = after_failure(
                PullStateView::FetchingBlob { parent, transaction, attempts: one_more(attempts) },
                Request::Blob(transaction.blob_id),
                attempts,
                e,
            );
            (next, store, action)
        },
        _ => (state, store, PullAction::Nothing),
    }
}

/// The identifiers of the log's transactions that `glob` does not hold, in
/// the log's order.
pub open spec fn only_here(log: Seq<TransactionView>, glob: Seq<u128>) -> Seq<u128>
    decreases log.len(),
{
    if log.len() == 0 {
        Seq::empty()
    } else if glob.contains(log.last().id) {
        only_here(log.drop_last(), glob)
    } else {
        only_here(log.drop_last(), glob).push(log.last().id)
    }
}

/// The identifiers of `glob` that no transaction of the log has, each once,
/// in the order in which `glob` first holds them.
pub open spec fn only_there(glob: Seq<u128>, log: Seq<TransactionView>) -> Seq<u128>
    decreases glob.len(),
{
    if glob.len() == 0 {
        Seq::empty()
    } else {
        let before = only_there(glob.drop_last(), log);
        if has_id(log, glob.last()) || before.contains(glob.last()) {
            before
        } else {
            before.push(glob.last())
        }
    }
}

/// What the two sides of a difference hold: on this side the identifiers of
/// the log that the peer lacks, on the peer's side the identifiers that the
/// log lacks.
pub proof fn lemma_difference(log: Seq<TransactionView>, glob: Seq<u128>)
    ensures
        forall|id: u128| #[trigger]
            only_here(log, glob).contains(id) <==> has_id(log, id) && !glob.contains(id),
        forall|id: u128| #[trigger]
            only_there(glob, log).contains(id) <==> glob.contains(id) && !has_id(log, id),
        only_there(glob, log).no_duplicates(),
{
    lemma_only_here(log, glob);
    lemma_only_there(glob, log);
}

proof fn lemma_only_here(log: Seq<TransactionView>, glob: Seq<u128>)
    ensures
        forall|id: u128| #[trigger]
            only_here(log, glob).contains(id) <==> has_id(log, id) && !glob.contains(id),
    decreases log.len(),
{
    let out = only_here(log, glob);
    if log.len() == 0 {
        assert forall|id: u128| #[trigger] out.contains(id) implies false by {
            let k = choose|k: int| 0 <= k < out.len() && out[k] == id;
        }
    } else {
        let rest = log.drop_last();
        let before = only_here(rest, glob);
        lemma_only_here(rest, glob);
        assert forall|id: u128| #[trigger]
            out.contains(id) <==> has_id(log, id) && !glob.contains(id) by {
            if out.contains(id) {
                let k = choose|k: int| 0 <= k < out.len() && out[k] == id;
                if k < before.len() {
                    assert(before[k] == id);
                    assert(before.contains(id));
                    let i = choose|i: int| 0 <= i < rest.len() && #[trigger] rest[i].id == id;
                    assert(log[i].id == id);
                } else {
                    assert(log[log.len() - 1].id == id);
                }
            }
            if has_id(log, id) && !glob.contains(id) {
                let i = choose|i: int| 0 <= i < log.len() && #[trigger] log[i].id == id;
                if i < rest.len() {
                    assert(rest[i].id == id);
                    assert(before.contains(id));
                    let k = choose|k: int| 0 <= k < before.len() && before[k] == id;
                    assert(out[k] == id);
                } else {
                    assert(out[out.len() - 1] == id);
                }
            }
        }
    }
}

proof fn lemma_only_there(glob: Seq<u128>, log: Seq<TransactionView>)
    ensures
        forall|id: u128| #[trigger]
            only_there(glob, log).contains(id) <==> glob.contains(id) && !has_id(log, id),
        only_there(glob, log).no_duplicates(),
    decreases glob.len(),
{
    let out = only_there(glob, log);
    if glob.len() == 0 {
        assert forall|id: u128| #[trigger] out.contains(id) implies false by {
            let k = choose|k: int| 0 <= k < out.len() && out[k] == id;
        }
    } else {
        let rest = glob.drop_last();
        let before = only_there(rest, log);
        lemma_only_there(rest, log);
        assert forall|id: u128| #[trigger]
            out.contains(id) <==> glob.contains(id) && !has_id(log, id) by {
            if out.contains(id) {
                let k = choose|k: int| 0 <= k < out.len() && out[k] == id;
                if k < before.len() {
                    assert(before[k] == id);
                    assert(before.contains(id));
                    let i = choose|i: int| 0 <= i < rest.len() && rest[i] == id;
                    assert(glob[i] == id);
                } else {
                    assert(glob[glob.len() - 1] == id);
                }
            }
            if glob.contains(id) && !has_id(log, id) {
                let i = choose|i: int| 0 <= i < glob.len() && glob[i] == id;
                if i < rest.len() {
                    assert(rest[i] == id);
                    assert(rest.contains(id));
                    assert(before.contains(id));
                }
                if before.contains(id) {
                    let k = choose|k: int| 0 <= k < before.len() && before[k] == id;
                    assert(out[k] == id);
                } else {
                    assert(out[out.len() - 1] == id);
                }
            }
        }
        if out.len() > before.len() {
            assert forall|a: int, b: int| 0 <= a < out.len() && 0 <= b < out.len() && a != b implies out[a]
                != out[b] by {
                if a < before.len() && b < before.len() {
                    assert(before[a] != before[b]);
                } else if a < before.len() {
                    assert(before.contains(before[a]));
                } else {
                    assert(before.contains(before[b]));
                }
            }
        }
    }
}

/// Whether the store `b` follows the store `a`: after `own` entries of its
/// own, `b`'s log holds the first transactions of `a` in `a`'s order, each as
/// it is in `a` but for its timestamp, and nothing else. `b` holds the blob
/// of each of them; where `b` holds a blob that a transaction of `a` names,
/// `a` holds it with the same content; the transactions of `a` that `b` has
/// not taken over are not in `b`'s log; and `b`'s watermark for `parent`
/// stands at the last one taken over.
pub open spec fn mirrors(a: StoreView, b: StoreView, parent: u128, own: int) -> bool {
    let k = b.log.len() - own;
    &&& 0 <= own <= b.log.len()
    &&& k <= a.log.len()
    &&& forall|j: int| own <= j < b.log.len() ==> (#[trigger] b.log[j]) == a.log[j - own].at(b.log[j].timestamp)
    &&& forall|i: int|
        0 <= i < a.log.len() && b.blobs.contains_key((#[trigger] a.log[i]).blob_id)
            ==> a.blobs.contains_key(a.log[i].blob_id) && b.blobs[a.log[i].blob_id]
            == a.blobs[a.log[i].blob_id]
    &&& forall|i: int| 0 <= i < k ==> b.blobs.contains_key((#[trigger] a.log[i]).blob_id)
    &&& forall|i: int| k <= i < a.log.len() ==> !has_id(b.log, (#[trigger] a.log[i]).id)
    &&& b.watermarks.contains_key(parent) <==> k > 0
    &&& k > 0 ==> b.watermarks[parent] == a.log[k - 1].id
}

/// A store follows another in one way only: the watermark says how many
/// transactions it has taken over, and the rest of its log is its own.
pub proof fn lemma_mirrors_once(a: StoreView, b: StoreView, parent: u128, own: int, other: int)
    requires
        distinct_ids(a.log),
        mirrors(a, b, parent, own),
        mirrors(a, b, parent, other),
    ensures
        own == other,
{
    let k = b.log.len() - own;
    let m = b.log.len() - other;
    if k > 0 && m > 0 && k != m {
        if k < m {
            assert(a.log[k - 1].id != a.log[m - 1].id);
        } else {
            assert(a.log[m - 1].id != a.log[k - 1].id);
        }
    }
}

/// The most recent entry about an entity is found in the log's later part
/// where that part mentions the entity, and in its earlier part else.
pub proof fn lemma_latest_of_parts(log: Seq<TransactionView>, own: int, data_type: DataType, alt_key: Seq<char>)
    requires
        0 <= own <= log.len(),
    ensures
        latest(log, data_type, alt_key) == if latest(log.skip(own), data_type, alt_key) is Some {
            latest(log.skip(own), data_type, alt_key)
        } else {
            latest(log.take(own), data_type, alt_key)
        },
    decreases log.len(),
{
    if log.len() == own {
        assert(log.take(own) =~= log);
        assert(log.skip(own) =~= Seq::<TransactionView>::empty());
    } else {
        let rest = log.drop_last();
        assert(log.skip(own).last() == log.last());
        assert(log.skip(own).drop_last() =~= rest.skip(own));
        assert(rest.take(own) =~= log.take(own));
        if !log.last().concerns(data_type, alt_key) {
            lemma_latest_of_parts(rest, own, data_type, alt_key);
        }
    }
}

/// In a log without repeated identifiers, an entry is found at its own
/// position.
pub proof fn lemma_position_of_entry(log: Seq<TransactionView>, k: int)
    requires
        distinct_ids(log),
        0 <= k < log.len(),
    ensures
        position_of(log, log[k].id) == Some(k),
    decreases log.len(),
{
    if k < log.len() - 1 {
        let rest = log.drop_last();
        assert(log[k].id != log[log.len() - 1].id);
        assert(rest[k] == log[k]);
        assert forall|i: int, j: int| 0 <= i < j < rest.len() implies rest[i].id != rest[j].id by {
            assert(rest[i] == log[i] && rest[j] == log[j]);
        }
        lemma_position_of_entry(rest, k);
    }
}

/// Two logs that agree entry by entry on everything but the timestamps have
/// the same most recent entry about each entity, but for its timestamp.
pub proof fn lemma_mirrored_latest(
    a: Seq<TransactionView>,
    b: Seq<TransactionView>,
    data_type: DataType,
    alt_key: Seq<char>,
)
    requires
        a.len() == b.len(),
        forall|i: int| 0 <= i < a.len() ==> (#[trigger] b[i]) == a[i].at(b[i].timestamp),
    ensures
        match latest(a, data_type, alt_key) {
            Some(t) => latest(b, data_type, alt_key) matches Some(u) && u == t.at(u.timestamp),
            None => latest(b, data_type, alt_key) is None,
        },
    decreases a.len(),
{
    if a.len() > 0 {
        assert(b.last() == b[b.len() - 1]);
        assert(a.last() == a[a.len() - 1]);
        if !a.last().concerns(data_type, alt_key) {
            let ra = a.drop_last();
            let rb = b.drop_last();
            assert forall|i: int| 0 <= i < ra.len() implies (#[trigger] rb[i]) == ra[i].at(
                rb[i].timestamp,
            ) by {
                assert(rb[i] == b[i] && ra[i] == a[i]);
            }
            lemma_mirrored_latest(ra, rb, data_type, alt_key);
        }
    }
}

/// Two logs that agree entry by entry on everything but the timestamps have
/// the same live entities of each kind, in the same order.
pub proof fn lemma_mirrored_live_keys(
    a: Seq<TransactionView>,
    b: Seq<TransactionView>,
    data_type: DataType,
    n: int,
)
    requires
        a.len() == b.len(),
        0 <= n <= a.len(),
        forall|i: int| 0 <= i < a.len() ==> (#[trigger] b[i]) == a[i].at(b[i].timestamp),
    ensures
        live_keys_upto(b, data_type, n) == live_keys_upto(a, data_type, n),
    decreases n,
{
    if n > 0 {
        lemma_mirrored_live_keys(a, b, data_type, n - 1);
        assert(b[n - 1] == a[n - 1].at(b[n - 1].timestamp));
        assert(is_current(a, n - 1) == is_current(b, n - 1)) by {
            if is_current(a, n - 1) {
                assert forall|j: int| n - 1 < j < b.len() implies !(#[trigger] b[j]).concerns(
                    b[n - 1].data_type,
                    b[n - 1].alt_key,
                ) by {
                    assert(b[j] == a[j].at(b[j].timestamp));
                    assert(!a[j].concerns(a[n - 1].data_type, a[n - 1].alt_key));
                }
            }
            if is_current(b, n - 1) {
                assert forall|j: int| n - 1 < j < a.len() implies !(#[trigger] a[j]).concerns(
                    a[n - 1].data_type,
                    a[n - 1].alt_key,
                ) by {
                    assert(b[j] == a[j].at(b[j].timestamp));
                    assert(!b[j].concerns(b[n - 1].data_type, b[n - 1].alt_key));
                }
            }
        }
    }
}

/// Convergence: a store that has taken over all of another's transactions
/// gives, for every entity that the other's log mentions, the serialized
/// form that the other gives. Where it holds no entries of its own, it does
/// so for every entity, and lists the same live entities of every kind.
pub proof fn lemma_converged(a: StoreView, b: StoreView, parent: u128, own: int)
    requires
        mirrors(a, b, parent, own),
        b.log.len() - own == a.log.len(),
    ensures
        forall|data_type: DataType, alt_key: Seq<char>|
            mentions(a.log, data_type, alt_key) ==> #[trigger] b.serialized(data_type, alt_key)
                == a.serialized(data_type, alt_key),
        own == 0 ==> forall|data_type: DataType, alt_key: Seq<char>| #[trigger]
            b.serialized(data_type, alt_key) == a.serialized(data_type, alt_key),
        own == 0 ==> forall|data_type: DataType| #[trigger]
            live_keys(b.log, data_type) == live_keys(a.log, data_type),
{
    let m = b.log.skip(own);
    assert forall|i: int| 0 <= i < a.log.len() implies (#[trigger] m[i]) == a.log[i].at(m[i].timestamp) by {
        assert(m[i] == b.log[own + i]);
    }
    assert forall|data_type: DataType, alt_key: Seq<char>|
        mentions(a.log, data_type, alt_key) || own == 0 implies #[trigger] b.serialized(
            data_type,
            alt_key,
        ) == a.serialized(data_type, alt_key) by {
        lemma_mirrored_latest(a.log, m, data_type, alt_key);
        lemma_latest_of_parts(b.log, own, data_type, alt_key);
        crate::log::lemma_latest_is_current(a.log, data_type, alt_key);
        if own == 0 {
            assert(b.log.take(0) =~= Seq::<TransactionView>::empty());
        }
        match latest(a.log, data_type, alt_key) {
            Some(t) => {
                let i = choose|i: int|
                    0 <= i < a.log.len() && #[trigger] a.log[i] == t && t.concerns(data_type, alt_key)
                        && is_current(a.log, i);
                assert(b.blobs.contains_key(a.log[i].blob_id));
                assert(a.blobs.contains_key(t.blob_id));
                assert(b.blobs[t.blob_id] == a.blobs[t.blob_id]);
            },
            None => {},
        }
    }
    if own == 0 {
        assert(m =~= b.log);
        assert forall|data_type: DataType| #[trigger]
            live_keys(b.log, data_type) == live_keys(a.log, data_type) by {
            lemma_mirrored_live_keys(a.log, b.log, data_type, a.log.len() as int);
        }
    }
}

/// Whether a list holds an identifier.
fn holds(ids: &Vec<u128>, id: u128) -> (found: bool)
    ensures
        found == ids@.contains(id),
{
    let mut i: usize = 0;
    while i < ids.len()
        invariant
            i <= ids.len(),
            forall|k: int| 0 <= k < i ==> ids@[k] != id,
        decreases ids.len() - i,
    {
        if ids[i] == id {
            return true;
        }
        i += 1;
    }
    false
}

/// A node's part in replication: who it is, whom it pulls from, and whom it
/// serves.
pub struct SyncManager {
    /// The children that may pull from this node. Only membership is ever
    /// asked of the list, so that a child named twice is approved as a child
    /// named once is; `add_child` names no child twice.
    pub approved_children: Vec<ChildID>,
    pub parent: Option<String>,
    pub id: ChildID,
}

impl SyncManager {
    /// A node `id` that pulls from `parent`, where it has one, and serves the
    /// approved children.
    pub fn new(id: ChildID, parent: Option<String>, approved_children: Vec<ChildID>) -> (manager:
        SyncManager)
        ensures
            manager.id == id,
            manager.parent == parent,
            manager.approved_children == approved_children,
    {
        SyncManager { approved_children, parent, id }
    }

    /// Approves a child: `Conflict` where the child is approved already.
    pub fn add_child(&mut self, id: ChildID) -> (res: Result<(), Error>)
        ensures
            final(self).id == old(self).id,
            final(self).parent == old(self).parent,
            match res {
                Ok(_) => !old(self).approved_children@.contains(id) && final(self).approved_children@
                    == old(self).approved_children@.push(id),
                Err(e) => e == Error::Conflict && old(self).approved_children@.contains(id)
                    && final(self).approved_children@ == old(self).approved_children@,
            },
    {
        if self.valid_child_id(&id) {
            return Err(Error::Conflict);
        }
        self.approved_children.push(id);
        Ok(())
    }

    /// Whether `id` is among the approved children.
    pub fn valid_child_id(&self, id: &ChildID) -> (valid: bool)
        ensures
            valid == self.approved_children@.contains(*id),
    {
        let mut i: usize = 0;
        while i < self.approved_children.len()
            invariant
                i <= self.approved_children.len(),
                forall|k: int| 0 <= k < i ==> self.approved_children@[k] != *id,
            decreases self.approved_children.len() - i,
        {
            if self.approved_children[i].0 == id.0 {
                return true;
            }
            i += 1;
        }
        false
    }

    /// This node's identifier, for an approved child; `AuthDenied` for
    /// anyone else.
    pub fn id(&self, child: &ChildID) -> (res: Result<ChildID, Error>)
        ensures
            res == if self.approved_children@.contains(*child) {
                Ok::<ChildID, Error>(self.id)
            } else {
                Err::<ChildID, Error>(Error::AuthDenied)
            },
    {
        if !self.valid_child_id(child) {
            return Err(Error::AuthDenied);
        }
        Ok(self.id)
    }

    /// The transaction that follows `transaction_id` in this node's log, or
    /// the oldest where none is given; nothing at the log's end. `AuthDenied`
    /// where the child is not approved, `NotFound` where the log holds no
    /// transaction `transaction_id`.
    pub fn next_after(&self, store: &StorageManager, child: &ChildID, transaction_id: Option<u128>) -> (res:
        Result<Option<Transaction>, Error>)
        requires
            store.wf(),
        ensures
            !self.approved_children@.contains(*child) ==> res == Err::<Option<Transaction>, Error>(
                Error::AuthDenied,
            ),
            self.approved_children@.contains(*child) ==> match transaction_id {
                Some(id) => match res {
                    Ok(Some(t)) => successor(store@.log, id) == Some(t@),
                    Ok(None) => by_id(store@.log, id) is Some && successor(store@.log, id) is None,
                    Err(e) => e == Error::NotFound && by_id(store@.log, id) is None,
                },
                None => match res {
                    Ok(Some(t)) => store@.log.len() > 0 && t@ == store@.log[0],
                    Ok(None) => store@.log.len() == 0,
                    Err(_) => false,
                },
            },
    {
        if !self.valid_child_id(child) {
            return Err(Error::AuthDenied);
        }
        match transaction_id {
            Some(id) => store.get_transaction_after(id),
            None => Ok(store.first_transaction()),
        }
    }

    /// The bytes of a blob, for an approved child. `AuthDenied` where the
    /// child is not approved, `NotFound` where the store does not hold the
    /// blob.
    pub fn get_blob(&self, store: &StorageManager, child: &ChildID, blob_id: u128) -> (res: Result<
        Vec<u8>,
        Error,
    >)
        requires
            store.wf(),
        ensures
            match res {
                Ok(data) => self.approved_children@.contains(*child) && store@.blobs.contains_key(
                    blob_id,
                ) && data@ == store@.blobs[blob_id].data,
                Err(e) => if self.approved_children@.contains(*child) {
                    e == Error::NotFound && !store@.blobs.contains_key(blob_id)
                } else {
                    e == Error::AuthDenied
                },
            },
    {
        if !self.valid_child_id(child) {
            return Err(Error::AuthDenied);
        }
        store.read_blob(blob_id)
    }

    /// The difference between this node's transactions and the identifiers
    /// that a child holds: first those that only this node has, then those
    /// that only the child has. `AuthDenied` where the child is not approved.
    pub fn diff(&self, store: &StorageManager, child: &ChildID, peer_glob: &Vec<u128>) -> (res: Result<
        (Vec<u128>, Vec<u128>),
        Error,
    >)
        requires
            store.wf(),
        ensures
            match res {
                Ok((here, there)) => self.approved_children@.contains(*child) && here@ == only_here(
                    store@.log,
                    peer_glob@,
                ) && there@ == only_there(peer_glob@, store@.log),
                Err(e) => e == Error::AuthDenied && !self.approved_children@.contains(*child),
            },
    {
        if !self.valid_child_id(child) {
            return Err(Error::AuthDenied);
        }
        let log = store.log();
        let mut here: Vec<u128> = Vec::new();
        let mut i: usize = 0;
        assert(log@.take(0) =~= Seq::<TransactionView>::empty());
        while i < log.len()
            invariant
                i <= log@.len(),
                here@ == only_here(log@.take(i as int), peer_glob@),
            decreases log@.len() - i,
        {
            proof {
                let next = log@.take(i + 1);
                assert(next.last() == log@[i as int]);
                assert(next.drop_last() =~= log@.take(i as int));
            }
            let id = log.entry(i).id;
            if !holds(peer_glob, id) {
                here.push(id);
            }
            i += 1;
        }
        assert(log@.take(log@.len() as int) =~= log@);
        let mut there: Vec<u128> = Vec::new();
        let mut j: usize = 0;
        assert(peer_glob@.take(0) =~= Seq::<u128>::empty());
        while j < peer_glob.len()
            invariant
                j <= peer_glob@.len(),
                there@ == only_there(peer_glob@.take(j as int), log@),
            decreases peer_glob@.len() - j,
        {
            proof {
                let next = peer_glob@.take(j + 1);
                assert(next.last() == peer_glob@[j as int]);
                assert(next.drop_last() =~= peer_glob@.take(j as int));
            }
            let id = peer_glob[j];
            if !log.contains_id(id) && !holds(&there, id) {
                there.push(id);
            }
            j += 1;
        }
        assert(peer_glob@.take(peer_glob@.len() as int) =~= peer_glob@);
        Ok((here, there))
    }

    /// The request for the transaction that follows the parent's watermark.
    fn request_next(store: &StorageManager, parent: u128) -> (request: Request)
        requires
            store.wf(),
        ensures
            request == next_request(store@, parent),
    {
        match store.get_watermark(parent) {
            Some(id) => Request::After(id),
            None => Request::First,
        }
    }

    /// Takes over the parent's transaction and moves the watermark to it.
    fn apply(store: &mut StorageManager, parent: u128, transaction: Transaction, now: i64) -> (done: bool)
        requires
            old(store).wf(),
        ensures
            final(store).wf(),
            final(store).spec_path() == old(store).spec_path(),
            done == can_apply(old(store)@, transaction@, now),
            final(store)@ == if done {
                applied(old(store)@, parent, transaction@, now)
            } else {
                old(store)@
            },
    {
        let id = transaction.id;
        if !store.log().contains_id(id) {
            match store.write_foreign_transaction_at(transaction, now) {
                Ok(_) => {},
                Err(_) => {
                    return false;
                },
            }
        }
        store.update_watermark(parent, id);
        true
    }

    /// What a failed request leads to.
    fn fail(retry: PullState, request: Request, attempts: u32, e: Error) -> (out: (PullState, PullAction))
        ensures
            (out.0@, out.1) == after_failure(retry@, request, attempts, e),
    {
        if e.is_transient() {
            (retry, PullAction::Send { request, delay_millis: backoff(attempts) })
        } else {
            (PullState::Unstarted, PullAction::Abort(e))
        }
    }

    /// One step of the pull loop when the clock reads `now`: takes the
    /// session's state and what the driver hands back, changes the store as
    /// the step demands, and says where the session stands now and what the
    /// driver is to do.
    pub fn step_at(&self, state: PullState, store: &mut StorageManager, event: PullEvent, now: i64) -> (out:
        (PullState, PullAction))
        requires
            old(store).wf(),
        ensures
            final(store).wf(),
            final(store).spec_path() == old(store).spec_path(),
            (out.0@, final(store)@, out.1) == pull_step(
                state@,
                self.parent is Some,
                old(store)@,
                event@,
                now,
            ),
    {
        match (state, event) {
            (PullState::Unstarted, PullEvent::Start) => {
                if self.parent.is_some() {
                    (
                        PullState::AwaitingId { attempts: 0 },
                        PullAction::Send { request: Request::ParentId, delay_millis: 0 },
                    )
                } else {
                    (PullState::Unstarted, PullAction::Nothing)
                }
            },
            (PullState::AwaitingId { attempts }, PullEvent::ParentId(parent)) => {
                let request = Self::request_next(store, parent);
                (PullState::Polling { parent, attempts: 0 }, PullAction::Send { request, delay_millis: 0 })
            },
            (PullState::AwaitingId { attempts }, PullEvent::Failed(e)) => {
                let more = if attempts < u32::MAX {
                    attempts + 1
                } else {
                    attempts
                };
                Self::fail(PullState::AwaitingId { attempts: more }, Request::ParentId, attempts, e)
            },
            (PullState::Polling { parent, attempts }, PullEvent::Next(None)) => {
                (PullState::Idle { parent }, PullAction::Wait)
            },
            (PullState::Polling { parent, attempts }, PullEvent::Next(Some(t))) => {
                let id = t.id;
                let blob_id = t.blob_id;
                if store.blob_exists(blob_id) {
                    if Self::apply(store, parent, t, now) {
                        (
                            PullState::Polling { parent, attempts: 0 },
                            PullAction::Send { request: Request::After(id), delay_millis: 0 },
                        )
                    } else {
                        (PullState::Unstarted, PullAction::Abort(Error::Storage))
                    }
                } else {
                    store.add_needed_blob(parent, blob_id);
                    (
                        PullState::FetchingBlob { parent, transaction: t, attempts: 0 },
                        PullAction::Send { request: Request::Blob(blob_id), delay_millis: 0 },
                    )
                }
            },
            (PullState::Polling { parent, attempts }, PullEvent::Failed(e)) => {
                let more = if attempts < u32::MAX {
                    attempts + 1
                } else {
                    attempts
                };
                let request = Self::request_next(store, parent);
                Self::fail(PullState::Polling { parent, attempts: more }, request, attempts, e)
            },
            (PullState::Idle { parent }, PullEvent::Tick) => {
                let request = Self::request_next(store, parent);
                (PullState::Polling { parent, attempts: 0 }, PullAction::Send { request, delay_millis: 0 })
            },
            (PullState::FetchingBlob { parent, transaction, attempts }, PullEvent::Blob { data, summary }) => {
                let id = transaction.id;
                let blob_id = transaction.blob_id;
                let fits = store.log().contains_id(id) || store.log().tick(now).is_ok();
                if fits {
                    if !store.blob_exists(blob_id) {
                        let put = store.write_blob_at(blob_id, data, summary);
                        assert(put is Ok);
                    }
                    let done = Self::apply(store, parent, transaction, now);
                    assert(done);
                    (
                        PullState::Polling { parent, attempts: 0 },
                        PullAction::Send { request: Request::After(id), delay_millis: 0 },
                    )
                } else {
                    (PullState::Unstarted, PullAction::Abort(Error::Storage))
                }
            },
            (PullState::FetchingBlob { parent, transaction, attempts }, PullEvent::Failed(e)) => {
                let more = if attempts < u32::MAX {
                    attempts + 1
                } else {
                    attempts
                };
                let blob_id = transaction.blob_id;
                Self::fail(
                    PullState::FetchingBlob { parent, transaction, attempts: more },
                    Request::Blob(blob_id),
                    attempts,
                    e,
                )
            },
            (state, _) => (state, PullAction::Nothing),
        }
    }

    /// One step of the pull loop under this node's clock.
    pub fn step(&self, state: PullState, store: &mut StorageManager, event: PullEvent) -> (out: (
        PullState,
        PullAction,
    ))
        requires
            old(store).wf(),
        ensures
            final(store).wf(),
            final(store).spec_path() == old(store).spec_path(),
            exists|now: i64|
                (out.0@, final(store)@, out.1) == #[trigger] pull_step(
                    state@,
                    self.parent is Some,
                    old(store)@,
                    event@,
                    now,
                ),
    {
        let now = now_micros();
        self.step_at(state, store, event, now)
    }

    /// Begins a pull session: where a parent is configured, the parent's node
    /// identifier is asked for; where none is, there is nothing to do.
    pub fn start_sync(&self) -> (out: (PullState, PullAction))
        ensures
            out.0@ == if self.parent is Some {
                PullStateView::AwaitingId { attempts: 0 }
            } else {
                PullStateView::Unstarted
            },
            out.1 == if self.parent is Some {
                PullAction::Send { request: Request::ParentId, delay_millis: 0 }
            } else {
                PullAction::Nothing
            },
    {
        if self.parent.is_some() {
            (
                PullState::AwaitingId { attempts: 0 },
                PullAction::Send { request: Request::ParentId, delay_millis: 0 },
            )
        } else {
            (PullState::Unstarted, PullAction::Nothing)
        }
    }

    /// Runs a pull session against a parent in the same process, until the
    /// parent has nothing new. On success this node has taken over all of the
    /// parent's transactions and blobs, so that it gives, for every entity
    /// that the parent's log mentions, the serialized form that the parent
    /// gives; a node without entries of its own does so for every entity, and
    /// lists the same live entities. `AuthDenied` where the parent has not
    /// approved this node, `NotFound` where the parent lacks the blob of its
    /// next transaction, `Storage` where this node's log has run out of
    /// timestamps; what was taken over before the failure stays.
    pub fn pull_from(&self, store: &mut StorageManager, parent: &SyncManager, parent_store: &StorageManager) -> (res:
        Result<(), Error>)
        requires
            old(store).wf(),
            parent_store.wf(),
            exists|own: int| mirrors(parent_store@, old(store)@, parent.id.0, own),
        ensures
            final(store).wf(),
            final(store).spec_path() == old(store).spec_path(),
            old(store)@.log.is_prefix_of(final(store)@.log),
            forall|own: int| #[trigger]
                mirrors(parent_store@, old(store)@, parent.id.0, own) ==> mirrors(
                    parent_store@,
                    final(store)@,
                    parent.id.0,
                    own,
                ),
            !parent.approved_children@.contains(self.id) ==> res == Err::<(), Error>(Error::AuthDenied),
            match res {
                Ok(_) => {
                    &&& parent.approved_children@.contains(self.id)
                    &&& mirrors(
                        parent_store@,
                        final(store)@,
                        parent.id.0,
                        final(store)@.log.len() - parent_store@.log.len(),
                    )
                    &&& forall|own: int| #[trigger]
                        mirrors(parent_store@, old(store)@, parent.id.0, own) ==> final(store)@.log.len()
                            == own + parent_store@.log.len()
                    &&& final(store)@.needed.subset_of(old(store)@.needed)
                    &&& forall|i: int|
                        0 <= i < parent_store@.log.len() ==> final(store)@.blobs.contains_key(
                            (#[trigger] parent_store@.log[i]).blob_id,
                        ) && final(store)@.blobs[parent_store@.log[i].blob_id]
                            == parent_store@.blobs[parent_store@.log[i].blob_id]
                    &&& forall|data_type: DataType, alt_key: Seq<char>|
                        mentions(parent_store@.log, data_type, alt_key)
                            ==> #[trigger] final(store)@.serialized(data_type, alt_key)
                            == parent_store@.serialized(data_type, alt_key)
                    &&& final(store)@.log.len() == parent_store@.log.len() ==> forall|
                        data_type: DataType,
                        alt_key: Seq<char>,
                    | #[trigger]
                        final(store)@.serialized(data_type, alt_key) == parent_store@.serialized(
                            data_type,
                            alt_key,
                        )
                    &&& final(store)@.log.len() == parent_store@.log.len() ==> forall|
                        data_type: DataType,
                    | #[trigger]
                        live_keys(final(store)@.log, data_type) == live_keys(parent_store@.log, data_type)
                },
                Err(e) => match e {
                    Error::AuthDenied => !parent.approved_children@.contains(self.id) && final(store)@
                        == old(store)@,
                    Error::NotFound => exists|own: int|
                        #[trigger] mirrors(parent_store@, final(store)@, parent.id.0, own)
                            && final(store)@.log.len() - own < parent_store@.log.len()
                            && !parent_store@.blobs.contains_key(
                            parent_store@.log[final(store)@.log.len() - own].blob_id,
                        ),
                    Error::Storage => final(store)@.log.len() > 0 && final(store)@.log.last().timestamp
                        == i64::MAX,
                    _ => false,
                },
            },
    {
        let parent_id = parent.id.0;
        if !parent.valid_child_id(&self.id) {
            return Err(Error::AuthDenied);
        }
        proof {
            parent_store.lemma_wf();
        }
        let ghost a = parent_store@;
        let ghost own = choose|own: int| mirrors(a, old(store)@, parent_id, own);
        proof {
            assert forall|other: int| #[trigger] mirrors(a, old(store)@, parent_id, other) implies other
                == own by {
                lemma_mirrors_once(a, old(store)@, parent_id, own, other);
            }
        }
        let mut state = PullState::Polling { parent: parent_id, attempts: 0 };
        loop
            invariant
                store.wf(),
                parent_store.wf(),
                a == parent_store@,
                distinct_ids(a.log),
                parent_id == parent.id.0,
                parent.approved_children@.contains(self.id),
                store.spec_path() == old(store).spec_path(),
                old(store)@.log.is_prefix_of(store@.log),
                state@ == (PullStateView::Polling { parent: parent_id, attempts: 0 }),
                mirrors(a, store@, parent_id, own),
                forall|other: int| #[trigger] mirrors(a, old(store)@, parent_id, other) ==> other == own,
                store@.needed.subset_of(old(store)@.needed),
            decreases a.log.len() - (store@.log.len() - own),
        {
            let ghost b = store@;
            let ghost k = b.log.len() - own;
            let watermark = store.get_watermark(parent_id);
            proof {
                if k > 0 {
                    lemma_position_of_entry(a.log, k - 1);
                }
            }
            let next = match parent.next_after(parent_store, &self.id, watermark) {
                Ok(next) => next,
                Err(e) => {
                    assert(false);
                    return Err(e);
                },
            };
            proof {
                if next is Some {
                    let t = next.unwrap()@;
                    assert(k < a.log.len() && t == a.log[k]);
                    assert(!has_id(b.log, a.log[k].id));
                } else {
                    assert(k == a.log.len());
                }
            }
            let now = now_micros();
            let (after, action) = self.step_at(state, store, PullEvent::Next(next), now);
            match action {
                PullAction::Wait => {
                    proof {
                        lemma_converged(a, store@, parent_id, own);
                        assert forall|i: int| 0 <= i < a.log.len() implies store@.blobs.contains_key(
                            (#[trigger] a.log[i]).blob_id,
                        ) && store@.blobs[a.log[i].blob_id] == a.blobs[a.log[i].blob_id] by {
                            assert(store@.blobs.contains_key(a.log[i].blob_id));
                        }
                    }
                    return Ok(());
                },
                PullAction::Abort(e) => {
                    return Err(e);
                },
                PullAction::Send { request: Request::Blob(blob_id), delay_millis } => {
                    match parent.get_blob(parent_store, &self.id, blob_id) {
                        Ok(data) => {
                            let summary = match parent_store.blobs().summary(blob_id) {
                                Some(s) => Some(s.duplicate()),
                                None => None,
                            };
                            assert((BlobView { data: data@, summary: summary_view(summary) })
                                == a.blobs[blob_id]);
                            let now = now_micros();
                            let (fetched, then) = self.step_at(
                                after,
                                store,
                                PullEvent::Blob { data, summary },
                                now,
                            );
                            match then {
                                PullAction::Abort(e) => {
                                    assert(store@.log == b.log && store@.blobs == b.blobs
                                        && store@.watermarks == b.watermarks);
                                    assert(mirrors(a, store@, parent_id, own));
                                    return Err(e);
                                },
                                _ => {
                                    proof {
                                        lemma_taken_over(a, b, store@, parent_id, own, now);
                                    }
                                    state = fetched;
                                },
                            }
                        },
                        Err(e) => {
                            let (_, _) = self.step_at(after, store, PullEvent::Failed(e), now);
                            assert(store@.log == b.log && store@.blobs == b.blobs && store@.watermarks
                                == b.watermarks);
                            assert(mirrors(a, store@, parent_id, own));
                            return Err(e);
                        },
                    }
                },
                _ => {
                    proof {
                        lemma_taken_over(a, b, store@, parent_id, own, now);
                    }
                    state = after;
                },
            }
        }
    }
}

/// Taking over the parent's next transaction, with its blob where that was
/// missing, keeps the node in step with the parent.
proof fn lemma_taken_over(a: StoreView, b: StoreView, after: StoreView, parent: u128, own: int, now: i64)
    requires
        mirrors(a, b, parent, own),
        distinct_ids(a.log),
        b.log.len() - own < a.log.len(),
        next_timestamp(b.log, now) <= i64::MAX,
        ({
            let t = a.log[b.log.len() - own];
            after == applied(b, parent, t, now) && b.blobs.contains_key(t.blob_id) || (
            !b.blobs.contains_key(t.blob_id) && a.blobs.contains_key(t.blob_id) && after == applied(
                received(
                    StoreView { needed: b.needed.insert((parent, t.blob_id)), ..b },
                    t.blob_id,
                    a.blobs[t.blob_id],
                ),
                parent,
                t,
                now,
            ))
        }),
    ensures
        mirrors(a, after, parent, own),
        after.log.len() == b.log.len() + 1,
        b.log.is_prefix_of(after.log),
        after.needed.subset_of(b.needed),
{
    let k = b.log.len() - own;
    let t = a.log[k];
    assert(!has_id(b.log, t.id));
    let local = t.at(next_timestamp(b.log, now) as i64);
    assert(after.log == b.log.push(local));
    assert forall|j: int| own <= j < after.log.len() implies (#[trigger] after.log[j]) == a.log[j - own].at(
        after.log[j].timestamp,
    ) by {
        if j < b.log.len() {
            assert(after.log[j] == b.log[j]);
        }
    }
    assert forall|i: int|
        0 <= i < a.log.len() && after.blobs.contains_key((#[trigger] a.log[i]).blob_id) implies a.blobs.contains_key(
        a.log[i].blob_id,
    ) && after.blobs[a.log[i].blob_id] == a.blobs[a.log[i].blob_id] by {
        if a.log[i].blob_id != t.blob_id {
            assert(b.blobs.contains_key(a.log[i].blob_id));
        } else if b.blobs.contains_key(t.blob_id) {
            assert(b.blobs.contains_key(a.log[k].blob_id));
        }
    }
    assert forall|i: int| 0 <= i < k + 1 implies after.blobs.contains_key((#[trigger] a.log[i]).blob_id) by {
        if i < k {
            assert(b.blobs.contains_key(a.log[i].blob_id));
        }
    }
    assert forall|i: int| k + 1 <= i < a.log.len() implies !has_id(after.log, (#[trigger] a.log[i]).id) by {
        if has_id(after.log, a.log[i].id) {
            let j = choose|j: int| 0 <= j < after.log.len() && #[trigger] after.log[j].id == a.log[i].id;
            if j < b.log.len() {
                assert(b.log[j].id == a.log[i].id);
                assert(has_id(b.log, a.log[i].id));
            } else {
                assert(a.log[k].id != a.log[i].id);
            }
        }
    }
}

} // verus!
