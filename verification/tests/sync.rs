use scouting_store::datatypes::{FormSummary, Serialized};
use scouting_store::error::Error;
use scouting_store::ids::Stamp;
use scouting_store::storage_manager::StorageManager;
use scouting_store::sync::{
    backoff, failure_of, ChildID, PullAction, PullEvent, PullState, Request, SyncManager, BACKOFF_BASE_MILLIS,
    BACKOFF_CAP_MILLIS,
};
use scouting_store::transactions::{Action, DataType, Transaction};

const A: u128 = 0xa;
const B: u128 = 0xb;

fn stamp(n: u128) -> Stamp {
    Stamp { blob_id: 0x100 + n, transaction_id: 0x200 + n, now: 1_000 * n as i64 }
}

/// Node A with the transactions t1, t2, t3 and the blobs b1, b2, b3.
fn node_a() -> (SyncManager, StorageManager) {
    let sync = SyncManager::new(ChildID(A), None, vec![ChildID(B)]);
    let mut store = StorageManager::new("a/");
    store.add_at("T1".to_string(), DataType::Template, b"template".to_vec(), stamp(1)).unwrap();
    store.add_at("S1".to_string(), DataType::Schedule, b"schedule".to_vec(), stamp(2)).unwrap();
    store.add_at("k".to_string(), DataType::Bytes, b"bytes".to_vec(), stamp(3)).unwrap();
    (sync, store)
}

fn node_b() -> (SyncManager, StorageManager) {
    let sync = SyncManager::new(ChildID(B), Some("https://a.example".to_string()), vec![]);
    (sync, StorageManager::new("b/"))
}

/// What the parent answers to a request.
fn answer(parent: &SyncManager, parent_store: &StorageManager, request: Request) -> PullEvent {
    let child = ChildID(B);
    match request {
        Request::ParentId => match parent.id(&child) {
            Ok(id) => PullEvent::ParentId(id.0),
            Err(e) => PullEvent::Failed(e),
        },
        Request::First => match parent.next_after(parent_store, &child, None) {
            Ok(next) => PullEvent::Next(next),
            Err(e) => PullEvent::Failed(e),
        },
        Request::After(id) => match parent.next_after(parent_store, &child, Some(id)) {
            Ok(next) => PullEvent::Next(next),
            Err(e) => PullEvent::Failed(e),
        },
        Request::Blob(id) => match parent.get_blob(parent_store, &child, id) {
            Ok(data) => PullEvent::Blob {
                data,
                summary: parent_store.blobs().summary(id).map(FormSummary::duplicate),
            },
            Err(e) => PullEvent::Failed(e),
        },
    }
}

fn kinds() -> [DataType; 4] {
    [DataType::Bytes, DataType::Form, DataType::Schedule, DataType::Template]
}

#[test]
fn sync_bootstrap() {
    let (a_sync, a_store) = node_a();
    let (b_sync, mut b_store) = node_b();
    assert_eq!(b_store.get_watermark(A), None);
    let (mut state, mut action) = b_sync.start_sync();
    assert_eq!(state, PullState::AwaitingId { attempts: 0 });
    let mut iterations = 0;
    loop {
        match action {
            PullAction::Send { request, delay_millis } => {
                assert_eq!(delay_millis, 0);
                let grows = matches!(request, Request::Blob(_));
                let event = answer(&a_sync, &a_store, request);
                let out = b_sync.step(state, &mut b_store, event);
                state = out.0;
                action = out.1;
                if grows {
                    iterations += 1;
                }
            },
            PullAction::Wait => break,
            other => panic!("unexpected action {:?}", other),
        }
    }
    assert_eq!(iterations, 3);
    assert_eq!(state, PullState::Idle { parent: A });
    assert_eq!(b_store.get_watermark(A), Some(0x203));
    for n in 1..=3u128 {
        assert!(b_store.blob_exists(0x100 + n));
        assert_eq!(b_store.read_blob(0x100 + n), a_store.read_blob(0x100 + n));
    }
    for kind in kinds() {
        assert_eq!(b_store.storable_list(kind), a_store.storable_list(kind));
    }
    assert_eq!(b_store.storable_list(DataType::Template), vec!["T1".to_string()]);
    assert_eq!(
        b_store.storable_get_serialized("S1".to_string(), DataType::Schedule),
        Ok(b"schedule".to_vec())
    );
    assert!(b_store.get_needed_blobs(A).is_empty());
}

#[test]
fn partial_failure() {
    let (a_sync, a_store) = node_a();
    let (b_sync, mut b_store) = node_b();
    let (state, _) = b_sync.start_sync();
    let (state, action) = b_sync.step(state, &mut b_store, PullEvent::ParentId(A));
    assert_eq!(action, PullAction::Send { request: Request::First, delay_millis: 0 });
    // iteration 1
    let (state, action) = b_sync.step(state, &mut b_store, answer(&a_sync, &a_store, Request::First));
    assert_eq!(action, PullAction::Send { request: Request::Blob(0x101), delay_millis: 0 });
    let (state, action) =
        b_sync.step(state, &mut b_store, answer(&a_sync, &a_store, Request::Blob(0x101)));
    assert_eq!(action, PullAction::Send { request: Request::After(0x201), delay_millis: 0 });
    assert_eq!(b_store.get_watermark(A), Some(0x201));
    // iteration 2: the blob fetch fails once
    let (state, action) =
        b_sync.step(state, &mut b_store, answer(&a_sync, &a_store, Request::After(0x201)));
    assert_eq!(action, PullAction::Send { request: Request::Blob(0x102), delay_millis: 0 });
    let (state, action) = b_sync.step(state, &mut b_store, PullEvent::Failed(Error::Transient));
    assert_eq!(
        action,
        PullAction::Send { request: Request::Blob(0x102), delay_millis: BACKOFF_BASE_MILLIS }
    );
    assert!(matches!(state, PullState::FetchingBlob { parent: A, attempts: 1, .. }));
    assert_eq!(b_store.get_watermark(A), Some(0x201));
    assert_eq!(b_store.get_needed_blobs(A), vec![0x102]);
    assert_eq!(b_store.log().len(), 1);
    // the retry succeeds
    let (state, action) =
        b_sync.step(state, &mut b_store, answer(&a_sync, &a_store, Request::Blob(0x102)));
    assert_eq!(action, PullAction::Send { request: Request::After(0x202), delay_millis: 0 });
    assert_eq!(state, PullState::Polling { parent: A, attempts: 0 });
    assert_eq!(b_store.log().len(), 2);
    assert_eq!(b_store.log().entry(1).id, 0x202);
    assert_eq!(b_store.get_watermark(A), Some(0x202));
    assert!(b_store.get_needed_blobs(A).is_empty());
    assert!(b_store.blob_exists(0x102));
}

#[test]
fn replication_keeps_identity_and_restamps() {
    let (_, a_store) = node_a();
    let mut b_store = StorageManager::new("b/");
    b_store.add_at("own".to_string(), DataType::Bytes, vec![], Stamp {
        blob_id: 1,
        transaction_id: 2,
        now: 50_000,
    })
    .unwrap();
    let t1 = a_store.first_transaction().unwrap();
    assert_eq!(t1.timestamp, 1_000);
    assert_eq!(b_store.write_foreign_transaction_at(t1.clone(), 40_000), Ok(()));
    let local = b_store.get_transaction(0x201).unwrap();
    assert_eq!(
        local,
        Transaction {
            id: 0x201,
            data_type: DataType::Template,
            action: Action::Add,
            blob_id: 0x101,
            alt_key: "T1".to_string(),
            timestamp: 50_001,
        }
    );
    // the same identifier is not taken twice
    assert_eq!(b_store.write_foreign_transaction_at(t1, 60_000), Err(Error::Storage));
    // under the real clock the timestamp is still past every earlier one
    let t2 = a_store.get_transaction_after(0x201).unwrap().unwrap();
    assert_eq!(b_store.write_foreign_transaction(t2), Ok(()));
    let local = b_store.get_transaction(0x202).unwrap();
    assert!(local.timestamp > 50_001);
    assert_eq!(local.blob_id, 0x102);
}

#[test]
fn pull_from_converges() {
    let (a_sync, mut a_store) = node_a();
    a_store.edit_at("T1".to_string(), DataType::Template, b"template v2".to_vec(), stamp(4)).unwrap();
    a_store.delete_at("k", DataType::Bytes, stamp(5)).unwrap();
    let (b_sync, mut b_store) = node_b();
    assert_eq!(b_sync.pull_from(&mut b_store, &a_sync, &a_store), Ok(()));
    assert_eq!(b_store.log().len(), 5);
    assert_eq!(b_store.get_watermark(A), Some(0x205));
    for (kind, key) in [
        (DataType::Template, "T1"),
        (DataType::Schedule, "S1"),
        (DataType::Bytes, "k"),
        (DataType::Form, "nothing"),
    ] {
        assert_eq!(
            b_store.storable_get_serialized(key.to_string(), kind),
            a_store.storable_get_serialized(key.to_string(), kind)
        );
    }
    assert_eq!(
        b_store.storable_get_serialized("T1".to_string(), DataType::Template),
        Ok(b"template v2".to_vec())
    );
    assert_eq!(b_store.storable_get_serialized("k".to_string(), DataType::Bytes), Err(Error::NotFound));
    for kind in kinds() {
        assert_eq!(b_store.storable_list(kind), a_store.storable_list(kind));
    }
    // a second run finds nothing new
    assert_eq!(b_sync.pull_from(&mut b_store, &a_sync, &a_store), Ok(()));
    assert_eq!(b_store.log().len(), 5);
    // and a later write of the parent is taken over by the next
    a_store.add_at("k".to_string(), DataType::Bytes, b"again".to_vec(), stamp(6)).unwrap();
    assert_eq!(b_sync.pull_from(&mut b_store, &a_sync, &a_store), Ok(()));
    assert_eq!(b_store.storable_get_serialized("k".to_string(), DataType::Bytes), Ok(b"again".to_vec()));
}

#[test]
fn a_child_with_entries_of_its_own_takes_over_the_parents() {
    let (a_sync, a_store) = node_a();
    let (b_sync, mut b_store) = node_b();
    let own = |n: u128| Stamp { blob_id: 0x500 + n, transaction_id: 0x600 + n, now: 10 * n as i64 };
    b_store.add_at("mine".to_string(), DataType::Bytes, b"mine".to_vec(), own(1)).unwrap();
    b_store.add_at("T1".to_string(), DataType::Template, b"my template".to_vec(), own(2)).unwrap();
    assert_eq!(b_sync.pull_from(&mut b_store, &a_sync, &a_store), Ok(()));
    assert_eq!(b_store.log().len(), 5);
    assert_eq!(b_store.log().entry(1).id, 0x602);
    assert_eq!(b_store.log().entry(2).id, 0x201);
    assert_eq!(b_store.log().entry(4).id, 0x203);
    // what the parent's log mentions reads as on the parent
    for (kind, key) in [(DataType::Template, "T1"), (DataType::Schedule, "S1"), (DataType::Bytes, "k")] {
        assert_eq!(
            b_store.storable_get_serialized(key.to_string(), kind),
            a_store.storable_get_serialized(key.to_string(), kind)
        );
    }
    assert_eq!(
        b_store.storable_get_serialized("T1".to_string(), DataType::Template),
        Ok(b"template".to_vec())
    );
    // what it does not mention stays
    assert_eq!(b_store.storable_get_serialized("mine".to_string(), DataType::Bytes), Ok(b"mine".to_vec()));
    assert_eq!(b_store.get_watermark(A), Some(0x203));
    assert!(b_store.get_needed_blobs(A).is_empty());
    assert_eq!(b_sync.pull_from(&mut b_store, &a_sync, &a_store), Ok(()));
    assert_eq!(b_store.log().len(), 5);
}

#[test]
fn pull_from_needs_approval() {
    let (_, a_store) = node_a();
    let strict = SyncManager::new(ChildID(A), None, vec![ChildID(0xc)]);
    let (b_sync, mut b_store) = node_b();
    assert_eq!(b_sync.pull_from(&mut b_store, &strict, &a_store), Err(Error::AuthDenied));
    assert_eq!(b_store.log().len(), 0);
    assert_eq!(b_store.get_watermark(A), None);
}

#[test]
fn pull_from_stops_at_a_missing_blob() {
    let a_sync = SyncManager::new(ChildID(A), None, vec![ChildID(B)]);
    let mut a_store = StorageManager::new("a/");
    a_store.add_at("T1".to_string(), DataType::Template, b"template".to_vec(), stamp(1)).unwrap();
    // a transaction whose blob the parent never got
    a_store
        .write_transaction(Transaction {
            id: 0x999,
            data_type: DataType::Bytes,
            action: Action::Add,
            blob_id: 0x777,
            alt_key: "lost".to_string(),
            timestamp: 5_000,
        })
        .unwrap();
    let (b_sync, mut b_store) = node_b();
    assert_eq!(b_sync.pull_from(&mut b_store, &a_sync, &a_store), Err(Error::NotFound));
    assert_eq!(b_store.log().len(), 1);
    assert_eq!(b_store.get_watermark(A), Some(0x201));
    assert_eq!(b_store.get_needed_blobs(A), vec![0x777]);
}

#[test]
fn peers_are_gated() {
    let (a_sync, a_store) = node_a();
    let stranger = ChildID(0xdead);
    let child = ChildID(B);
    assert!(a_sync.valid_child_id(&child));
    assert!(!a_sync.valid_child_id(&stranger));
    assert_eq!(a_sync.id(&child), Ok(ChildID(A)));
    assert_eq!(a_sync.id(&stranger), Err(Error::AuthDenied));
    assert_eq!(a_sync.next_after(&a_store, &stranger, None), Err(Error::AuthDenied));
    assert_eq!(a_sync.get_blob(&a_store, &stranger, 0x101), Err(Error::AuthDenied));
    assert_eq!(a_sync.diff(&a_store, &stranger, &vec![]), Err(Error::AuthDenied));
    assert_eq!(a_sync.get_blob(&a_store, &child, 0x101), Ok(b"template".to_vec()));
    assert_eq!(a_sync.get_blob(&a_store, &child, 0x1), Err(Error::NotFound));
}

#[test]
fn children_are_approved_once() {
    let mut sync = SyncManager::new(ChildID(A), None, vec![]);
    assert!(!sync.valid_child_id(&ChildID(B)));
    assert_eq!(sync.add_child(ChildID(B)), Ok(()));
    assert!(sync.valid_child_id(&ChildID(B)));
    assert_eq!(sync.add_child(ChildID(B)), Err(Error::Conflict));
    assert_eq!(sync.add_child(ChildID(0xc)), Ok(()));
    assert_eq!(sync.approved_children, vec![ChildID(B), ChildID(0xc)]);
    assert_eq!(sync.id(&ChildID(0xc)), Ok(ChildID(A)));
}

#[test]
fn next_after_walks_the_log() {
    let (a_sync, a_store) = node_a();
    let child = ChildID(B);
    let first = a_sync.next_after(&a_store, &child, None).unwrap().unwrap();
    assert_eq!(first.id, 0x201);
    let second = a_sync.next_after(&a_store, &child, Some(0x201)).unwrap().unwrap();
    assert_eq!(second.id, 0x202);
    let third = a_sync.next_after(&a_store, &child, Some(0x202)).unwrap().unwrap();
    assert_eq!(third.id, 0x203);
    assert_eq!(a_sync.next_after(&a_store, &child, Some(0x203)), Ok(None));
    assert_eq!(a_sync.next_after(&a_store, &child, Some(0x1234)), Err(Error::NotFound));
    let empty = StorageManager::new("");
    assert_eq!(a_sync.next_after(&empty, &child, None), Ok(None));
}

#[test]
fn diff_is_the_symmetric_difference() {
    let (a_sync, a_store) = node_a();
    let child = ChildID(B);
    let glob = vec![0x202, 0x300, 0x301, 0x300];
    assert_eq!(a_sync.diff(&a_store, &child, &glob), Ok((vec![0x201, 0x203], vec![0x300, 0x301])));
    assert_eq!(a_sync.diff(&a_store, &child, &vec![]), Ok((vec![0x201, 0x202, 0x203], vec![])));
    assert_eq!(a_sync.diff(&a_store, &child, &vec![0x201, 0x202, 0x203]), Ok((vec![], vec![])));
}

#[test]
fn backoff_doubles_up_to_the_cap() {
    assert_eq!(BACKOFF_BASE_MILLIS, 250);
    assert_eq!(BACKOFF_CAP_MILLIS, 60_000);
    assert_eq!(backoff(0), 250);
    assert_eq!(backoff(1), 500);
    assert_eq!(backoff(2), 1_000);
    assert_eq!(backoff(7), 32_000);
    assert_eq!(backoff(8), 60_000);
    assert_eq!(backoff(9), 60_000);
    assert_eq!(backoff(64), 60_000);
    assert_eq!(backoff(u32::MAX), 60_000);
}

#[test]
fn failures_are_told_apart() {
    assert_eq!(failure_of(Some(401), false), Error::AuthDenied);
    assert_eq!(failure_of(Some(403), false), Error::AuthDenied);
    assert_eq!(failure_of(Some(403), true), Error::AuthDenied);
    assert_eq!(failure_of(Some(404), false), Error::NotFound);
    assert_eq!(failure_of(Some(404), true), Error::NotFound);
    assert_eq!(failure_of(Some(400), false), Error::Decode);
    assert_eq!(failure_of(Some(200), true), Error::Decode);
    assert_eq!(failure_of(None, true), Error::Decode);
    assert_eq!(failure_of(None, false), Error::Transient);
    assert_eq!(failure_of(Some(500), false), Error::Transient);
    assert_eq!(failure_of(Some(503), false), Error::Transient);
    assert_eq!(failure_of(Some(408), false), Error::Transient);
    assert_eq!(failure_of(Some(0), false), Error::Transient);
    assert_eq!(failure_of(Some(u16::MAX), false), Error::Transient);
}

#[test]
fn a_new_store_takes_every_write() {
    let (_, a_store) = node_a();
    let t1 = a_store.first_transaction().unwrap();
    let mut store = StorageManager::new("");
    assert_eq!(store.write_foreign_transaction(t1), Ok(()));
    assert_eq!(store.log().entry(0).id, 0x201);
    let mut store = StorageManager::new("");
    assert!(store.write_blob(vec![1], None).is_ok());
    assert_eq!(store.bytes_add("k".to_string(), vec![1, 2, 3]), Ok("k".to_string()));
    assert_eq!(store.bytes_get("k"), Ok(vec![1, 2, 3]));
}

#[test]
fn a_node_without_parent_does_not_pull() {
    let lonely = SyncManager::new(ChildID(A), None, vec![]);
    let mut store = StorageManager::new("");
    assert_eq!(lonely.start_sync(), (PullState::Unstarted, PullAction::Nothing));
    assert_eq!(
        lonely.step(PullState::Unstarted, &mut store, PullEvent::Start),
        (PullState::Unstarted, PullAction::Nothing)
    );
}

#[test]
fn the_session_follows_its_states() {
    let (b_sync, mut store) = node_b();
    // Unstarted -> awaiting the parent's identifier
    let (state, action) = b_sync.step(PullState::Unstarted, &mut store, PullEvent::Start);
    assert_eq!(state, PullState::AwaitingId { attempts: 0 });
    assert_eq!(action, PullAction::Send { request: Request::ParentId, delay_millis: 0 });
    // a transient failure is retried after the pause, a second one after twice the pause
    let (state, action) = b_sync.step(state, &mut store, PullEvent::Failed(Error::Transient));
    assert_eq!(state, PullState::AwaitingId { attempts: 1 });
    assert_eq!(action, PullAction::Send { request: Request::ParentId, delay_millis: 250 });
    let (state, action) = b_sync.step(state, &mut store, PullEvent::Failed(Error::Transient));
    assert_eq!(state, PullState::AwaitingId { attempts: 2 });
    assert_eq!(action, PullAction::Send { request: Request::ParentId, delay_millis: 500 });
    // -> Polling
    let (state, action) = b_sync.step(state, &mut store, PullEvent::ParentId(A));
    assert_eq!(state, PullState::Polling { parent: A, attempts: 0 });
    assert_eq!(action, PullAction::Send { request: Request::First, delay_millis: 0 });
    // Polling -(None)-> Idle -(tick)-> Polling
    let (state, action) = b_sync.step(state, &mut store, PullEvent::Next(None));
    assert_eq!(state, PullState::Idle { parent: A });
    assert_eq!(action, PullAction::Wait);
    let (state, action) = b_sync.step(state, &mut store, PullEvent::Tick);
    assert_eq!(state, PullState::Polling { parent: A, attempts: 0 });
    assert_eq!(action, PullAction::Send { request: Request::First, delay_millis: 0 });
    // an event that does not belong to the state changes nothing
    let (state, action) = b_sync.step(state, &mut store, PullEvent::Tick);
    assert_eq!(state, PullState::Polling { parent: A, attempts: 0 });
    assert_eq!(action, PullAction::Nothing);
    // an error that is not transient ends the cycle
    let (state, action) = b_sync.step(state, &mut store, PullEvent::Failed(Error::AuthDenied));
    assert_eq!(state, PullState::Unstarted);
    assert_eq!(action, PullAction::Abort(Error::AuthDenied));
    let (state, action) =
        b_sync.step(PullState::Idle { parent: A }, &mut store, PullEvent::Failed(Error::Decode));
    assert_eq!(state, PullState::Idle { parent: A });
    assert_eq!(action, PullAction::Nothing);
}

#[test]
fn a_transaction_whose_blob_is_local_is_applied_at_once() {
    let (b_sync, mut store) = node_b();
    store.write_blob_at(0x101, b"template".to_vec(), None).unwrap();
    let t = Transaction {
        id: 0x201,
        data_type: DataType::Template,
        action: Action::Add,
        blob_id: 0x101,
        alt_key: "T1".to_string(),
        timestamp: 77,
    };
    let (state, action) = b_sync.step_at(
        PullState::Polling { parent: A, attempts: 3 },
        &mut store,
        PullEvent::Next(Some(t.clone())),
        123,
    );
    assert_eq!(state, PullState::Polling { parent: A, attempts: 0 });
    assert_eq!(action, PullAction::Send { request: Request::After(0x201), delay_millis: 0 });
    assert_eq!(store.get_transaction(0x201), Ok(Transaction { timestamp: 123, ..t.clone() }));
    assert_eq!(store.get_watermark(A), Some(0x201));
    assert!(store.get_needed_blobs(A).is_empty());
    // offered once more, it is not appended again, and the watermark stays
    let (state, action) = b_sync.step_at(state, &mut store, PullEvent::Next(Some(t)), 456);
    assert_eq!(state, PullState::Polling { parent: A, attempts: 0 });
    assert_eq!(action, PullAction::Send { request: Request::After(0x201), delay_millis: 0 });
    assert_eq!(store.log().len(), 1);
    assert_eq!(store.get_watermark(A), Some(0x201));
}

#[test]
fn a_synced_form_is_indexed_from_its_blob() {
    let (b_sync, mut store) = node_b();
    let t = Transaction {
        id: 0x201,
        data_type: DataType::Form,
        action: Action::Add,
        blob_id: 0x101,
        alt_key: "00000000-0000-0000-0000-000000000007".to_string(),
        timestamp: 77,
    };
    let state = PullState::Polling { parent: A, attempts: 0 };
    let (state, action) = b_sync.step_at(state, &mut store, PullEvent::Next(Some(t)), 1);
    assert_eq!(action, PullAction::Send { request: Request::Blob(0x101), delay_millis: 0 });
    assert_eq!(store.forms().len(), 0);
    let summary = FormSummary {
        template: "T1".to_string(),
        team: 10,
        match_number: 1,
        event_key: "e".to_string(),
        scouter: "s".to_string(),
    };
    let event = PullEvent::Blob { data: b"form".to_vec(), summary: Some(summary.clone()) };
    let (_, action) = b_sync.step_at(state, &mut store, event, 2);
    assert_eq!(action, PullAction::Send { request: Request::After(0x201), delay_millis: 0 });
    assert_eq!(store.forms().len(), 1);
    assert_eq!(store.forms().entry(0).blob_id, 0x101);
    assert_eq!(store.forms().entry(0).summary, summary);
    assert_eq!(store.forms_list("T1".to_string()), vec![7]);
}

#[test]
fn storables_of_other_crates_are_stored() {
    struct Note(&'static str);
    impl scouting_store::datatypes::StorableObject for Note {
        fn get_alt_key(&self) -> String {
            self.0.to_string()
        }
        fn get_type(&self) -> DataType {
            DataType::Schedule
        }
        fn ser(self) -> Result<Vec<u8>, Error> {
            if self.0.is_empty() {
                Err(Error::Encode)
            } else {
                Ok(self.0.as_bytes().to_vec())
            }
        }
    }
    let mut store = StorageManager::new("");
    assert_eq!(store.storable_add(Note("week one")), Ok("week one".to_string()));
    assert_eq!(
        store.storable_get_serialized("week one".to_string(), DataType::Schedule),
        Ok(b"week one".to_vec())
    );
    assert_eq!(store.storable_add(Note("")), Err(Error::Encode));
    assert_eq!(store.log().len(), 1);
    let same = Serialized {
        alt_key: "week one".to_string(),
        data_type: DataType::Schedule,
        payload: vec![],
    };
    assert_eq!(store.storable_add(same), Err(Error::Conflict));
}
