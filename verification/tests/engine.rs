use scouting_store::blob_store::{file_name, BlobStore};
use scouting_store::bytes::{frame, unframe};
use scouting_store::datatypes::{
    BytesReference, FieldData, FieldDataType, Filter, Form, FormSummary, FormTemplate, Serialized,
    StorableObject,
};
use scouting_store::error::Error;
use scouting_store::forms_index::FormsIndex;
use scouting_store::ids::Stamp;
use scouting_store::log::{text_matches, TransactionLog};
use scouting_store::schedules::{Schedule, Shift};
use scouting_store::settings::{Database, Settings, DEFAULT_CACHE_CAPACITY};
use scouting_store::storage_manager::{
    StorageManager, FORMS_TABLE, NEEDED_BLOB_TABLE, TRANSACTION_TABLE, WATER_MARK_TABLE,
};
use scouting_store::transactions::{Action, DataType, Transaction};

fn stamp(n: u128) -> Stamp {
    Stamp { blob_id: 0x100 + n, transaction_id: 0x200 + n, now: 1_000 * n as i64 }
}

fn txn(id: u128, data_type: DataType, action: Action, blob_id: u128, key: &str, at: i64) -> Transaction {
    Transaction { id, data_type, action, blob_id, alt_key: key.to_string(), timestamp: at }
}

fn template() -> FormTemplate {
    let mut template = FormTemplate::new("T1", 2024);
    template.add_field("heading", FieldDataType::Title);
    template.add_field("auto", FieldDataType::CheckBox);
    template.add_field("speed", FieldDataType::Rating { min: 1, max: 5 });
    template.add_field("cycles", FieldDataType::Number);
    template.add_field("note", FieldDataType::ShortText);
    template.add_field("story", FieldDataType::LongText);
    template
}

fn full_form() -> Form {
    let mut form = Form::default();
    form.scouter = "s".to_string();
    form.team = 10;
    form.match_number = 1;
    form.event_key = "e".to_string();
    form.add_field("auto", FieldData::CheckBox(true));
    form.add_field("speed", FieldData::Rating(3));
    form.add_field("cycles", FieldData::Number(7));
    form.add_field("note", FieldData::ShortText("ok".to_string()));
    form.add_field("story", FieldData::LongText("long".to_string()));
    form
}

fn store_with_template() -> StorageManager {
    let mut store = StorageManager::new("");
    store.add_at("T1".to_string(), DataType::Template, b"{}".to_vec(), stamp(1)).unwrap();
    store
}

fn no_filter() -> Filter {
    Filter { match_number: None, team: None, event: None, scouter: None }
}

// ---- validation ----

#[test]
fn a_complete_form_follows_its_template() {
    assert!(template().validate_form(&full_form()));
}

#[test]
fn a_title_needs_no_value_and_extra_values_are_permitted() {
    let mut form = full_form();
    form.add_field("unknown", FieldData::Number(1));
    assert!(template().validate_form(&form));
    assert_eq!(form.get_field("heading"), None);
    assert_eq!(form.get_field("unknown"), Some(&FieldData::Number(1)));
}

#[test]
fn a_rating_takes_any_integer() {
    let mut form = full_form();
    form.add_field("speed", FieldData::Rating(-400));
    assert!(template().validate_form(&form));
    form.add_field("speed", FieldData::Rating(i64::MAX));
    assert!(template().validate_form(&form));
}

#[test]
fn a_missing_value_fails_validation() {
    let mut form = Form::default();
    form.add_field("auto", FieldData::CheckBox(true));
    form.add_field("speed", FieldData::Rating(3));
    form.add_field("cycles", FieldData::Number(7));
    form.add_field("note", FieldData::ShortText("ok".to_string()));
    assert!(!template().validate_form(&form));
    form.add_field("story", FieldData::LongText(String::new()));
    assert!(template().validate_form(&form));
}

#[test]
fn a_value_of_another_kind_fails_validation() {
    for (name, wrong) in [
        ("auto", FieldData::Number(1)),
        ("speed", FieldData::Number(3)),
        ("cycles", FieldData::Rating(7)),
        ("note", FieldData::LongText("ok".to_string())),
        ("story", FieldData::ShortText("long".to_string())),
        ("cycles", FieldData::CheckBox(false)),
    ] {
        let mut form = full_form();
        form.add_field(name, wrong);
        assert!(!template().validate_form(&form), "{}", name);
    }
}

#[test]
fn field_kinds_match_their_own_tags_only() {
    let template = template();
    let fields = template.fields();
    let values = [
        FieldData::CheckBox(false),
        FieldData::Rating(0),
        FieldData::Number(0),
        FieldData::ShortText(String::new()),
        FieldData::LongText(String::new()),
    ];
    // fields: heading, auto, speed, cycles, note, story
    let expected = [
        [false, false, false, false, false],
        [true, false, false, false, false],
        [false, true, false, false, false],
        [false, false, true, false, false],
        [false, false, false, true, false],
        [false, false, false, false, true],
    ];
    for (field, row) in fields.iter().zip(expected) {
        for (value, matches) in values.iter().zip(row) {
            assert_eq!(field.data_type_match(value), matches, "{} {:?}", field.name(), value);
        }
    }
    assert_eq!(fields[2].data_type(), FieldDataType::Rating { min: 1, max: 5 });
    assert_eq!(template.name(), "T1");
    assert_eq!(template.year(), 2024);
}

#[test]
fn an_empty_template_accepts_every_form() {
    assert!(FormTemplate::new("empty", 1).validate_form(&Form::default()));
    assert_eq!(FormTemplate::new("empty", 1).fields().len(), 0);
}

#[test]
fn add_field_replaces_the_value_under_a_name() {
    let mut form = Form::default();
    assert_eq!(form.get_field("a"), None);
    form.add_field("a", FieldData::Number(1));
    form.add_field("b", FieldData::Number(2));
    form.add_field("a", FieldData::CheckBox(true));
    assert_eq!(form.get_field("a"), Some(&FieldData::CheckBox(true)));
    assert_eq!(form.get_field("b"), Some(&FieldData::Number(2)));
    assert_eq!((form.team, form.match_number, form.id), (0, 0, None));
}

#[test]
fn a_form_is_made_with_what_it_says_of_itself() {
    let form = Form::new("s".to_string(), 10, 2, "e".to_string());
    assert_eq!((form.scouter.as_str(), form.team, form.match_number), ("s", 10, 2));
    assert_eq!((form.event_key.as_str(), form.id), ("e", None));
    assert!(form.entries().is_empty());
    assert_eq!(form.get_field("auto"), None);
    assert_eq!(form.summary("T1").team, 10);
}

#[test]
fn a_form_lists_its_values() {
    let mut form = Form::default();
    assert!(form.entries().is_empty());
    form.add_field("a", FieldData::Number(1));
    form.add_field("b", FieldData::ShortText("x".to_string()));
    form.add_field("a", FieldData::Number(2));
    let entries: Vec<(String, FieldData)> =
        form.entries().iter().map(|e| (e.name().clone(), e.data().clone())).collect();
    assert_eq!(
        entries,
        vec![
            ("a".to_string(), FieldData::Number(2)),
            ("b".to_string(), FieldData::ShortText("x".to_string())),
        ]
    );
}

#[test]
fn a_form_gives_its_row_and_summary() {
    let form = full_form();
    let summary = form.summary("T1");
    assert_eq!(
        summary,
        FormSummary {
            template: "T1".to_string(),
            team: 10,
            match_number: 1,
            event_key: "e".to_string(),
            scouter: "s".to_string(),
        }
    );
    assert_eq!(summary.duplicate(), summary);
    let filed = form.with_id(9);
    assert_eq!(filed.id, Some(9));
    assert_eq!(filed.get_field("cycles"), Some(&FieldData::Number(7)));
    let row = filed.to_db_form(0x42, "T1".to_string());
    assert_eq!(
        (row.blob_id, row.team, row.match_number, row.event_key.as_str(), row.template.as_str()),
        (0x42, 10, 1, "e", "T1")
    );
}

#[test]
fn a_summary_passes_the_predicates_it_meets() {
    let summary = full_form().summary("T1");
    let t1 = "T1".to_string();
    assert!(summary.passes(&t1, &no_filter()));
    assert!(!summary.passes(&"T2".to_string(), &no_filter()));
    assert!(summary.passes(&t1, &Filter { team: Some(10), ..no_filter() }));
    assert!(!summary.passes(&t1, &Filter { team: Some(11), ..no_filter() }));
    assert!(summary.passes(&t1, &Filter { match_number: Some(1), ..no_filter() }));
    assert!(!summary.passes(&t1, &Filter { match_number: Some(2), ..no_filter() }));
    assert!(summary.passes(&t1, &Filter { event: Some("e".to_string()), ..no_filter() }));
    assert!(!summary.passes(&t1, &Filter { event: Some("f".to_string()), ..no_filter() }));
    assert!(summary.passes(&t1, &Filter { scouter: Some("s".to_string()), ..no_filter() }));
    assert!(!summary.passes(&t1, &Filter { scouter: Some("t".to_string()), ..no_filter() }));
    let all = Filter {
        team: Some(10),
        match_number: Some(1),
        event: Some("e".to_string()),
        scouter: Some("s".to_string()),
    };
    assert!(summary.passes(&t1, &all));
}

// ---- bytes ----

#[test]
fn a_frame_is_length_key_payload() {
    assert_eq!(frame("k", &[1, 2]), vec![0, 0, 0, 0, 0, 0, 0, 1, b'k', 1, 2]);
    assert_eq!(frame("", &[]), vec![0, 0, 0, 0, 0, 0, 0, 0]);
    // the length is that of the key's UTF-8 form
    assert_eq!(frame("é", &[7]), vec![0, 0, 0, 0, 0, 0, 0, 2, 0xc3, 0xa9, 7]);
    let long_key = "x".repeat(258);
    let blob = frame(&long_key, &[5]);
    assert_eq!(&blob[..8], &[0, 0, 0, 0, 0, 0, 1, 2]);
    assert_eq!(blob.len(), 8 + 258 + 1);
}

#[test]
fn unframe_undoes_frame() {
    assert_eq!(unframe(&frame("k", &[1, 2])), Ok(("k".to_string(), vec![1, 2])));
    assert_eq!(unframe(&frame("", &[])), Ok((String::new(), vec![])));
    assert_eq!(unframe(&frame("é/ü", &[0xff])), Ok(("é/ü".to_string(), vec![0xff])));
    let long_key = "x".repeat(300);
    assert_eq!(unframe(&frame(&long_key, &[5, 6])), Ok((long_key, vec![5, 6])));
}

#[test]
fn unframe_refuses_what_is_no_frame() {
    assert_eq!(unframe(&[]), Err(Error::Decode));
    assert_eq!(unframe(&[0, 0, 0, 0, 0, 0, 0]), Err(Error::Decode));
    // the key is longer than what follows
    assert_eq!(unframe(&[0, 0, 0, 0, 0, 0, 0, 2, b'k']), Err(Error::Decode));
    assert_eq!(unframe(&[0xff, 0, 0, 0, 0, 0, 0, 0, b'k']), Err(Error::Decode));
    // the key is no UTF-8
    assert_eq!(unframe(&[0, 0, 0, 0, 0, 0, 0, 1, 0xff, 1]), Err(Error::Decode));
    assert_eq!(unframe(&[0, 0, 0, 0, 0, 0, 0, 1, b'k']), Ok(("k".to_string(), vec![])));
}

#[test]
fn a_bytes_reference_frames_itself() {
    let bytes = BytesReference("k".to_string(), vec![1, 2]);
    assert_eq!(bytes.get_alt_key(), "k");
    assert_eq!(bytes.get_type(), DataType::Bytes);
    assert_eq!(bytes.ser(), Ok(vec![0, 0, 0, 0, 0, 0, 0, 1, b'k', 1, 2]));
    let plain = Serialized { alt_key: "p".to_string(), data_type: DataType::Schedule, payload: vec![3] };
    assert_eq!(plain.get_alt_key(), "p");
    assert_eq!(plain.get_type(), DataType::Schedule);
    assert_eq!(plain.ser(), Ok(vec![3]));
}

#[test]
fn bytes_round_trip_through_the_store() {
    let mut store = StorageManager::new("");
    assert_eq!(store.storable_add(BytesReference("k".to_string(), vec![1, 2])), Ok("k".to_string()));
    assert_eq!(store.bytes_get("k"), Ok(vec![1, 2]));
    assert_eq!(
        store.storable_get_serialized("k".to_string(), DataType::Bytes),
        Ok(vec![0, 0, 0, 0, 0, 0, 0, 1, b'k', 1, 2])
    );
    assert_eq!(store.bytes_edit("k".to_string(), vec![]), Ok(()));
    assert_eq!(store.bytes_get("k"), Ok(vec![]));
    assert_eq!(store.bytes_edit("other".to_string(), vec![]), Err(Error::NotFound));
    assert_eq!(store.bytes_add("k".to_string(), vec![]), Err(Error::Conflict));
    assert_eq!(store.bytes_add("l".to_string(), vec![4]), Ok("l".to_string()));
    assert_eq!(store.bytes_list(), vec!["k".to_string(), "l".to_string()]);
    assert_eq!(store.bytes_delete("k"), Ok(()));
    assert_eq!(store.bytes_delete("k"), Err(Error::NotFound));
    assert_eq!(store.bytes_list(), vec!["l".to_string()]);
    assert_eq!(store.bytes_get("k"), Err(Error::NotFound));
}

#[test]
fn bytes_get_refuses_a_blob_that_frames_nothing() {
    let mut store = StorageManager::new("");
    store.add_at("raw".to_string(), DataType::Bytes, vec![1, 2, 3], stamp(1)).unwrap();
    assert_eq!(store.bytes_get("raw"), Err(Error::Decode));
}

// ---- identifiers and file names ----

#[test]
fn a_form_is_filed_under_the_printable_form_of_its_identifier() {
    let mut store = store_with_template();
    let template = FormTemplate::new("T1", 2024);
    let id = 0x550e8400_e29b_41d4_a716_446655440000u128;
    assert_eq!(store.forms_add_at(&template, &Form::default(), id, b"f".to_vec(), stamp(2)), Ok(id));
    let key = "550e8400-e29b-41d4-a716-446655440000";
    assert_eq!(store.log().entry(1).alt_key, key);
    assert_eq!(store.forms_get_serialized(String::new(), key.to_string()), Ok(b"f".to_vec()));
    assert_eq!(store.forms_list("T1".to_string()), vec![id]);
    let low = 0x0123_4567_89ab_cdefu128;
    assert_eq!(store.forms_add_at(&template, &Form::default(), low, b"g".to_vec(), stamp(3)), Ok(low));
    assert_eq!(store.log().entry(2).alt_key, "00000000-0000-0000-0123-456789abcdef");
    assert_eq!(store.log().entry(2).alt_key, uuid::Uuid::from_u128(low).to_string());
    assert_eq!(store.forms_list("T1".to_string()), vec![id, low]);
}

#[test]
fn forms_list_reads_every_notation_and_passes_over_the_rest() {
    let mut store = StorageManager::new("");
    let summary = FormSummary {
        template: "T1".to_string(),
        team: 1,
        match_number: 1,
        event_key: "e".to_string(),
        scouter: "s".to_string(),
    };
    let keys = [
        "550e8400-e29b-41d4-a716-446655440000",
        "not a uuid",
        "550E8400E29B41D4A716446655440001",
        "{550e8400-e29b-41d4-a716-446655440002}",
        "urn:uuid:550e8400-e29b-41d4-a716-446655440003",
        "",
    ];
    for (n, key) in keys.iter().enumerate() {
        let n = n as u128 + 1;
        store.write_blob_at(n, vec![], Some(summary.clone())).unwrap();
        store.write_transaction(txn(0x200 + n, DataType::Form, Action::Add, n, key, n as i64)).unwrap();
    }
    let base = 0x550e8400_e29b_41d4_a716_446655440000u128;
    assert_eq!(store.forms_list("T1".to_string()), vec![base, base + 1, base + 2, base + 3]);
    assert_eq!(store.storable_list(DataType::Form).len(), 6);
}

#[test]
fn forms_list_names_each_form_once() {
    let mut store = store_with_template();
    let template = FormTemplate::new("T1", 2024);
    for n in 1..=4u128 {
        store.forms_add_at(&template, &Form::default(), n, vec![], stamp(n + 1)).unwrap();
    }
    let key = "00000000-0000-0000-0000-000000000002".to_string();
    store.forms_edit_at(&template, &Form::default(), key, vec![1], stamp(9)).unwrap();
    assert_eq!(store.forms_list("T1".to_string()), vec![1, 3, 4, 2]);
    // two notations of one identifier are two forms, listed by the same identifier
    let summary = Form::default().summary("T9");
    store.write_blob_at(0x900, vec![], Some(summary)).unwrap();
    for (n, key) in ["00000000-0000-0000-0000-00000000000a", "0000000000000000000000000000000A"]
        .iter()
        .enumerate()
    {
        let t = txn(0x900 + n as u128, DataType::Form, Action::Add, 0x900, key, 100_000 + n as i64);
        store.write_transaction(t).unwrap();
    }
    assert_eq!(store.forms_list("T9".to_string()), vec![10, 10]);
}

#[test]
fn a_blob_file_is_named_by_the_digest_of_its_identifier() {
    assert_eq!(
        file_name(0x550e8400_e29b_41d4_a716_446655440000),
        "a3a9e1ed9732cab28868127be00f1ce921acaefdd5c3b23a6e9e0072bd9c1a34"
    );
    assert_eq!(file_name(1), "7ac1b8d7010bb6cd3a3e84e7f90136b880bbc899e428ece49333372911ab9052");
    let store = StorageManager::new("/var/data/");
    assert_eq!(store.get_path(), "/var/data/blobs/");
    assert_eq!(
        store.blob_path(1),
        "/var/data/blobs/7ac1b8d7010bb6cd3a3e84e7f90136b880bbc899e428ece49333372911ab9052"
    );
    assert_eq!(StorageManager::new("").get_path(), "blobs/");
}

#[test]
fn drawn_stamps_differ() {
    let a = Stamp::draw();
    let b = Stamp::draw();
    assert_ne!(a.blob_id, a.transaction_id);
    assert_ne!(a.blob_id, b.blob_id);
    assert_ne!(a.transaction_id, b.transaction_id);
    // after 2020, before 2200
    assert!(a.now > 1_577_836_800_000_000 && a.now < 7_258_118_400_000_000);
    assert!(b.now >= a.now);
    let t = Transaction::new(DataType::Bytes, Action::Edit, 5, "k".to_string());
    assert_eq!((t.data_type, t.action, t.blob_id, t.alt_key.as_str()), (DataType::Bytes, Action::Edit, 5, "k"));
    assert!(t.timestamp >= b.now);
    assert_eq!(t.duplicate(), t);
}

#[test]
fn kinds_and_actions_have_names() {
    let kinds = [
        (DataType::Bytes, "Bytes"),
        (DataType::Form, "Form"),
        (DataType::Schedule, "Schedule"),
        (DataType::Template, "Template"),
    ];
    for (kind, name) in kinds {
        assert_eq!(kind.name(), name);
        assert_eq!(DataType::from_name(name), Some(kind));
    }
    let actions = [(Action::Add, "Add"), (Action::Delete, "Delete"), (Action::Edit, "Edit")];
    for (action, name) in actions {
        assert_eq!(action.name(), name);
        assert_eq!(Action::from_name(name), Some(action));
    }
    for other in ["", "bytes", "Forms", "Add ", "DELETE", "Template\n"] {
        assert_eq!(DataType::from_name(other), None);
        assert_eq!(Action::from_name(other), None);
    }
}

#[test]
fn table_names() {
    assert_eq!(TRANSACTION_TABLE, "transactions");
    assert_eq!(FORMS_TABLE, "forms");
    assert_eq!(WATER_MARK_TABLE, "watermarks");
    assert_eq!(NEEDED_BLOB_TABLE, "blobs");
}

// ---- the blob store ----

#[test]
fn a_blob_is_written_once() {
    let mut blobs = BlobStore::new();
    assert!(!blobs.contains(1));
    assert_eq!(blobs.get(1), Err(Error::NotFound));
    assert_eq!(blobs.put_at(1, vec![1], None), Ok(()));
    assert_eq!(blobs.put_at(1, vec![2], None), Err(Error::Storage));
    assert_eq!(blobs.get(1), Ok(&vec![1]));
    assert!(blobs.contains(1));
    assert_eq!(blobs.summary(1), None);
    let id = blobs.put(vec![3], Some(full_form().summary("T1"))).unwrap();
    assert_ne!(id, 1);
    assert_eq!(blobs.get(id), Ok(&vec![3]));
    assert_eq!(blobs.summary(id), Some(&full_form().summary("T1")));
    assert_eq!(blobs.len(), 2);
}

#[test]
fn the_store_mints_blob_identifiers() {
    let mut store = StorageManager::new("");
    let a = store.write_blob(vec![1], None).unwrap();
    let b = store.write_blob(vec![1], None).unwrap();
    assert_ne!(a, b);
    assert!(store.blob_exists(a) && store.blob_exists(b));
    assert!(!store.blob_exists(a ^ b));
    assert_eq!(store.read_blob(a), Ok(vec![1]));
    assert_eq!(store.read_blob(a ^ b), Err(Error::NotFound));
    assert_eq!(store.write_blob_at(a, vec![2], None), Err(Error::Storage));
    assert_eq!(store.read_blob(a), Ok(vec![1]));
    assert_eq!(store.blobs().len(), 2);
}

// ---- the log ----

fn sample_log() -> TransactionLog {
    let mut log = TransactionLog::new();
    log.append(txn(1, DataType::Template, Action::Add, 11, "T1", 10)).unwrap();
    log.append(txn(2, DataType::Bytes, Action::Add, 12, "T1", 20)).unwrap();
    log.append(txn(3, DataType::Template, Action::Edit, 13, "T1", 30)).unwrap();
    log.append(txn(4, DataType::Template, Action::Add, 14, "T2", 40)).unwrap();
    log.append(txn(5, DataType::Template, Action::Delete, 13, "T1", 50)).unwrap();
    log
}

#[test]
fn the_log_refuses_a_known_identifier_and_an_old_timestamp() {
    let mut log = sample_log();
    assert_eq!(log.append(txn(3, DataType::Bytes, Action::Add, 1, "x", 60)), Err(Error::Storage));
    assert_eq!(log.append(txn(6, DataType::Bytes, Action::Add, 1, "x", 50)), Err(Error::Storage));
    assert_eq!(log.append(txn(6, DataType::Bytes, Action::Add, 1, "x", 49)), Err(Error::Storage));
    assert_eq!(log.len(), 5);
    assert_eq!(log.append(txn(6, DataType::Bytes, Action::Add, 1, "x", 51)), Ok(()));
    assert_eq!(log.len(), 6);
    assert!(log.contains_id(6));
    assert!(!log.contains_id(7));
    let mut empty = TransactionLog::new();
    assert_eq!(empty.append(txn(1, DataType::Bytes, Action::Add, 1, "x", i64::MIN)), Ok(()));
}

#[test]
fn the_clock_never_goes_back() {
    let log = sample_log();
    assert_eq!(log.tick(51), Ok(51));
    assert_eq!(log.tick(50), Ok(51));
    assert_eq!(log.tick(-3), Ok(51));
    assert_eq!(log.tick(i64::MAX), Ok(i64::MAX));
    assert_eq!(TransactionLog::new().tick(-3), Ok(-3));
    let mut full = TransactionLog::new();
    full.append(txn(1, DataType::Bytes, Action::Add, 1, "x", i64::MAX)).unwrap();
    assert_eq!(full.tick(0), Err(Error::Storage));
    assert_eq!(full.tick(i64::MAX), Err(Error::Storage));
}

#[test]
fn latest_is_the_entry_with_the_greatest_timestamp() {
    let log = sample_log();
    assert_eq!(log.latest(DataType::Template, "T1").map(|t| t.id), Ok(5));
    assert_eq!(log.latest(DataType::Bytes, "T1").map(|t| t.id), Ok(2));
    assert_eq!(log.latest(DataType::Template, "T2").map(|t| t.id), Ok(4));
    assert_eq!(log.latest(DataType::Schedule, "T1").map(|t| t.id), Err(Error::NotFound));
    assert_eq!(log.latest(DataType::Template, "t1").map(|t| t.id), Err(Error::NotFound));
    assert_eq!(log.latest_action(DataType::Template, "T1"), Ok(Action::Delete));
    assert_eq!(log.latest_action(DataType::Bytes, "T1"), Ok(Action::Add));
    assert_eq!(log.latest_action(DataType::Form, "T1"), Err(Error::NotFound));
    assert!(!Action::Delete.is_live() && Action::Add.is_live() && Action::Edit.is_live());
}

#[test]
fn entries_are_found_by_identifier() {
    let log = sample_log();
    assert_eq!(log.get(3).map(|t| t.timestamp), Ok(30));
    assert_eq!(log.get(9).map(|t| t.timestamp), Err(Error::NotFound));
    assert_eq!(log.find(1), Some(0));
    assert_eq!(log.find(5), Some(4));
    assert_eq!(log.find(0), None);
    assert_eq!(log.blob_of(4), Ok(14));
    assert_eq!(log.blob_of(0), Err(Error::NotFound));
    assert_eq!(log.entry(1).id, 2);
    assert_eq!(log.first().map(|t| t.id), Some(1));
    assert_eq!(TransactionLog::new().first(), None);
}

#[test]
fn after_is_the_next_entry_in_time() {
    let log = sample_log();
    assert_eq!(log.after(1).map(|t| t.map(|t| t.id)), Ok(Some(2)));
    assert_eq!(log.after(4).map(|t| t.map(|t| t.id)), Ok(Some(5)));
    assert_eq!(log.after(5).map(|t| t.map(|t| t.id)), Ok(None));
    assert_eq!(log.after(6).map(|t| t.map(|t| t.id)), Err(Error::NotFound));
}

#[test]
fn a_blob_is_deleted_when_its_last_transaction_is_a_delete() {
    let log = sample_log();
    assert!(log.is_deleted(13));
    assert!(!log.is_deleted(11));
    assert!(!log.is_deleted(14));
    assert!(!log.is_deleted(99));
    assert!(log.names_form_blob(13) == false);
    let mut forms = TransactionLog::new();
    forms.append(txn(1, DataType::Form, Action::Add, 7, "f", 1)).unwrap();
    assert!(forms.names_form_blob(7));
    assert!(!forms.names_form_blob(8));
}

#[test]
fn list_live_takes_the_latest_state_of_each_key() {
    let mut log = sample_log();
    assert_eq!(log.list_live(DataType::Template), vec!["T2".to_string()]);
    assert_eq!(log.list_live(DataType::Bytes), vec!["T1".to_string()]);
    assert!(log.list_live(DataType::Form).is_empty());
    // a second add after the delete revives the entity
    log.append(txn(6, DataType::Template, Action::Add, 15, "T1", 60)).unwrap();
    assert_eq!(log.list_live(DataType::Template), vec!["T2".to_string(), "T1".to_string()]);
    assert!(log.is_current_at(5) && log.is_current_at(3) && log.is_current_at(1));
    assert!(!log.is_current_at(0) && !log.is_current_at(2) && !log.is_current_at(4));
}

#[test]
fn count_is_the_number_of_transactions_about_a_key() {
    let log = sample_log();
    assert_eq!(log.count_by_alt_key("T1", DataType::Template), 3);
    assert_eq!(log.count_by_alt_key("T1", DataType::Bytes), 1);
    assert_eq!(log.count_by_alt_key("T2", DataType::Template), 1);
    assert_eq!(log.count_by_alt_key("T3", DataType::Template), 0);
}

#[test]
fn restore_inverts_the_tombstone() {
    let mut log = sample_log();
    // T1 is tombstoned: restoring its first version is an add
    assert_eq!(log.restore(1, 100, 45), Ok(()));
    assert_eq!(log.entry(5), &txn(100, DataType::Template, Action::Add, 11, "T1", 51));
    // T1 is live now: restoring the edit is an edit
    assert_eq!(log.restore(3, 101, 70), Ok(()));
    assert_eq!(log.entry(6), &txn(101, DataType::Template, Action::Edit, 13, "T1", 70));
    // restoring a delete of a live entity is an edit for the deleted blob
    assert_eq!(log.restore(5, 102, 80), Ok(()));
    assert_eq!(log.entry(7), &txn(102, DataType::Template, Action::Edit, 13, "T1", 80));
    assert_eq!(log.restore(999, 103, 90), Err(Error::NotFound));
    assert_eq!(log.restore(1, 102, 90), Err(Error::Storage));
    assert_eq!(log.len(), 8);
}

#[test]
fn a_pattern_matches_where_its_bytes_stand() {
    assert!(text_matches("template one", "late"));
    assert!(text_matches("template one", "template one"));
    assert!(text_matches("template one", "t"));
    assert!(text_matches("template one", "e"));
    assert!(text_matches("template one", ""));
    assert!(text_matches("", ""));
    assert!(!text_matches("", "a"));
    assert!(!text_matches("template one", "template one "));
    assert!(!text_matches("template one", "Late"));
    assert!(!text_matches("template one", "tamp"));
    assert!(!text_matches("abab", "abb"));
    assert!(text_matches("aab", "ab"));
    assert!(text_matches("grüße", "üß"));
    assert!(!text_matches("grüße", "us"));
}

#[test]
fn search_finds_the_newest_entry_of_each_matching_key() {
    let mut log = sample_log();
    // T1 has a template's and a bytes entity's entries: the newest is the delete
    let found = log.search("T");
    assert_eq!(found.iter().map(|t| t.id).collect::<Vec<_>>(), vec![4, 5]);
    assert_eq!(found[1], txn(5, DataType::Template, Action::Delete, 13, "T1", 50));
    assert_eq!(log.search_count("T"), 2);
    assert_eq!(log.search("1").iter().map(|t| t.id).collect::<Vec<_>>(), vec![5]);
    assert_eq!(log.search_count("1"), 1);
    assert_eq!(log.search("T2").iter().map(|t| t.id).collect::<Vec<_>>(), vec![4]);
    assert!(log.search("t1").is_empty());
    assert_eq!(log.search_count("t1"), 0);
    assert_eq!(log.search_count(""), 2);
    log.append(txn(6, DataType::Schedule, Action::Add, 16, "week T", 60)).unwrap();
    assert_eq!(log.search("T").iter().map(|t| t.id).collect::<Vec<_>>(), vec![4, 5, 6]);
    assert_eq!(log.search_count("T"), 3);
    assert_eq!(log.search_count("week"), 1);
    assert!(log.is_newest_at(5) && log.is_newest_at(4) && log.is_newest_at(3));
    assert!(!log.is_newest_at(0) && !log.is_newest_at(1) && !log.is_newest_at(2));
    assert!(TransactionLog::new().search("").is_empty());
    assert_eq!(TransactionLog::new().search_count(""), 0);
}

#[test]
fn the_engine_searches_its_log() {
    let mut store = StorageManager::new("");
    store.add_at("alpha".to_string(), DataType::Schedule, vec![1], stamp(1)).unwrap();
    store.add_at("beta".to_string(), DataType::Bytes, vec![2], stamp(2)).unwrap();
    store.edit_at("alpha".to_string(), DataType::Schedule, vec![3], stamp(3)).unwrap();
    assert_eq!(store.search_count("a"), 2);
    assert_eq!(store.search_count("alp"), 1);
    assert_eq!(store.search_count("gamma"), 0);
    let found = store.search("a");
    assert_eq!(found.len(), 2);
    assert_eq!(found[0], txn(0x202, DataType::Bytes, Action::Add, 0x102, "beta", 2_000));
    assert_eq!(found[1], txn(0x203, DataType::Schedule, Action::Edit, 0x103, "alpha", 3_000));
    assert_eq!(store.search("alp"), vec![found[1].clone()]);
    assert!(store.search("gamma").is_empty());
}

// ---- the engine ----

#[test]
fn a_new_engine_is_empty() {
    let store = StorageManager::new("base/");
    assert_eq!(store.log().len(), 0);
    assert_eq!(store.blobs().len(), 0);
    assert_eq!(store.forms().len(), 0);
    assert_eq!(store.first_transaction(), None);
    assert_eq!(store.get_watermark(1), None);
    assert!(store.get_needed_blobs(1).is_empty());
    for kind in [DataType::Bytes, DataType::Form, DataType::Schedule, DataType::Template] {
        assert!(store.storable_list(kind).is_empty());
    }
}

#[test]
fn an_add_writes_a_blob_and_a_transaction() {
    let mut store = StorageManager::new("");
    assert_eq!(store.add_at("S".to_string(), DataType::Schedule, vec![1], stamp(1)), Ok("S".to_string()));
    assert_eq!(store.log().entry(0), &txn(0x201, DataType::Schedule, Action::Add, 0x101, "S", 1_000));
    assert_eq!(store.read_blob(0x101), Ok(vec![1]));
    assert_eq!(store.get_blob_id("S", DataType::Schedule), Some(0x101));
    assert_eq!(store.latest_blob_from_alt_key("S", DataType::Schedule), Ok(0x101));
    assert_eq!(store.latest_action_from_alt_key("S", DataType::Schedule), Ok(Action::Add));
    assert_eq!(
        store.latest_transaction_from_alt_key("S", DataType::Schedule),
        Ok(txn(0x201, DataType::Schedule, Action::Add, 0x101, "S", 1_000))
    );
    assert_eq!(store.transaction_count("S", DataType::Schedule), 1);
    assert_eq!(store.get_blob_id("S", DataType::Template), None);
    assert_eq!(store.latest_blob_from_alt_key("S", DataType::Template), Err(Error::NotFound));
}

#[test]
fn the_alt_key_of_one_kind_is_free_for_another() {
    let mut store = StorageManager::new("");
    store.add_at("x".to_string(), DataType::Schedule, vec![1], stamp(1)).unwrap();
    assert_eq!(store.add_at("x".to_string(), DataType::Template, vec![2], stamp(2)), Ok("x".to_string()));
    assert_eq!(store.storable_get_serialized("x".to_string(), DataType::Schedule), Ok(vec![1]));
    assert_eq!(store.storable_get_serialized("x".to_string(), DataType::Template), Ok(vec![2]));
}

#[test]
fn writes_are_refused_as_a_whole() {
    let mut store = StorageManager::new("");
    store.add_at("S".to_string(), DataType::Schedule, vec![1], stamp(1)).unwrap();
    // live already
    assert_eq!(store.add_at("S".to_string(), DataType::Schedule, vec![2], stamp(2)), Err(Error::Conflict));
    // the blob identifier is taken
    let taken_blob = Stamp { blob_id: 0x101, ..stamp(2) };
    assert_eq!(store.add_at("R".to_string(), DataType::Schedule, vec![2], taken_blob), Err(Error::Storage));
    // the transaction identifier is taken
    let taken_txn = Stamp { transaction_id: 0x201, ..stamp(2) };
    assert_eq!(store.add_at("R".to_string(), DataType::Schedule, vec![2], taken_txn), Err(Error::Storage));
    assert_eq!(store.edit_at("S".to_string(), DataType::Schedule, vec![2], taken_txn), Err(Error::Storage));
    assert_eq!(store.delete_at("S", DataType::Schedule, taken_txn), Err(Error::Storage));
    assert_eq!(store.edit_at("R".to_string(), DataType::Schedule, vec![2], stamp(2)), Err(Error::NotFound));
    assert_eq!(store.delete_at("R", DataType::Schedule, stamp(2)), Err(Error::NotFound));
    assert_eq!(store.log().len(), 1);
    assert_eq!(store.blobs().len(), 1);
    assert!(!store.blob_exists(0x102));
    assert_eq!(store.storable_get_serialized("S".to_string(), DataType::Schedule), Ok(vec![1]));
}

#[test]
fn time_runs_out_at_the_end_of_the_clock() {
    let mut store = StorageManager::new("");
    let last = Stamp { now: i64::MAX, ..stamp(1) };
    assert_eq!(store.add_at("S".to_string(), DataType::Schedule, vec![1], last), Ok("S".to_string()));
    assert_eq!(store.edit_at("S".to_string(), DataType::Schedule, vec![2], stamp(2)), Err(Error::Storage));
    assert_eq!(store.restore_transaction_at(0x201, 5, 0), Err(Error::Storage));
    assert_eq!(store.log().len(), 1);
    assert!(!store.blob_exists(0x102));
}

#[test]
fn the_last_writer_wins() {
    let mut store = StorageManager::new("");
    store.add_at("S".to_string(), DataType::Schedule, vec![1], stamp(1)).unwrap();
    store.edit_at("S".to_string(), DataType::Schedule, vec![2], stamp(2)).unwrap();
    // the clock stands still: the timestamp moves on by one
    store.edit_at("S".to_string(), DataType::Schedule, vec![3], Stamp { now: 0, ..stamp(3) }).unwrap();
    assert_eq!(store.log().entry(2).timestamp, 2_001);
    assert_eq!(store.storable_get_serialized("S".to_string(), DataType::Schedule), Ok(vec![3]));
    store.delete_at("S", DataType::Schedule, stamp(4)).unwrap();
    assert_eq!(store.log().entry(3), &txn(0x204, DataType::Schedule, Action::Delete, 0x103, "S", 4_000));
    assert_eq!(store.storable_get_serialized("S".to_string(), DataType::Schedule), Err(Error::NotFound));
    assert!(store.blob_deleted(0x103));
    assert!(!store.blob_deleted(0x102));
    assert!(store.blob_exists(0x103));
    assert_eq!(store.transaction_count("S", DataType::Schedule), 4);
    store.add_at("S".to_string(), DataType::Schedule, vec![5], stamp(5)).unwrap();
    assert_eq!(store.storable_get_serialized("S".to_string(), DataType::Schedule), Ok(vec![5]));
}

#[test]
fn a_transaction_without_its_blob_has_no_serialized_form() {
    let mut store = StorageManager::new("");
    store.write_transaction(txn(1, DataType::Schedule, Action::Add, 9, "S", 1)).unwrap();
    assert_eq!(store.get_blob_id("S", DataType::Schedule), Some(9));
    assert_eq!(store.storable_get_serialized("S".to_string(), DataType::Schedule), Err(Error::NotFound));
    assert_eq!(store.storable_list(DataType::Schedule), vec!["S".to_string()]);
    store.write_blob_at(9, vec![4], None).unwrap();
    assert_eq!(store.storable_get_serialized("S".to_string(), DataType::Schedule), Ok(vec![4]));
    assert_eq!(store.write_transaction(txn(1, DataType::Schedule, Action::Edit, 9, "S", 2)), Err(Error::Storage));
    assert_eq!(store.write_transaction(txn(2, DataType::Schedule, Action::Edit, 9, "S", 1)), Err(Error::Storage));
}

#[test]
fn restore_revives_an_earlier_version() {
    let mut store = StorageManager::new("");
    store.add_at("S".to_string(), DataType::Schedule, vec![1], stamp(1)).unwrap();
    store.edit_at("S".to_string(), DataType::Schedule, vec![2], stamp(2)).unwrap();
    assert_eq!(store.restore_transaction_at(0x201, 0x301, 3_000), Ok(()));
    assert_eq!(store.log().entry(2), &txn(0x301, DataType::Schedule, Action::Edit, 0x101, "S", 3_000));
    assert_eq!(store.storable_get_serialized("S".to_string(), DataType::Schedule), Ok(vec![1]));
    store.delete_at("S", DataType::Schedule, stamp(4)).unwrap();
    assert_eq!(store.restore_transaction_at(0x202, 0x302, 5_000), Ok(()));
    assert_eq!(store.log().entry(4), &txn(0x302, DataType::Schedule, Action::Add, 0x102, "S", 5_000));
    assert_eq!(store.storable_get_serialized("S".to_string(), DataType::Schedule), Ok(vec![2]));
    assert_eq!(store.restore_transaction_at(0x999, 0x303, 6_000), Err(Error::NotFound));
    assert_eq!(store.restore_transaction_at(0x201, 0x302, 6_000), Err(Error::Storage));
    assert_eq!(store.restore_transaction(0x999), Err(Error::NotFound));
    assert_eq!(store.restore_transaction(0x201), Ok(()));
    assert_eq!(store.storable_get_serialized("S".to_string(), DataType::Schedule), Ok(vec![1]));
    assert_eq!(store.log().entry(5).action, Action::Edit);
    assert!(store.log().entry(5).timestamp > 5_000);
}

#[test]
fn transactions_are_walked_in_order() {
    let mut store = StorageManager::new("");
    for n in 1..=3 {
        store.add_at(format!("k{}", n), DataType::Bytes, vec![], stamp(n)).unwrap();
    }
    assert_eq!(store.first_transaction().map(|t| t.id), Some(0x201));
    assert_eq!(store.get_transaction(0x202).map(|t| t.alt_key), Ok("k2".to_string()));
    assert_eq!(store.get_transaction(0x2).map(|t| t.alt_key), Err(Error::NotFound));
    assert_eq!(store.get_transaction_after(0x201).map(|t| t.map(|t| t.id)), Ok(Some(0x202)));
    assert_eq!(store.get_transaction_after(0x203), Ok(None));
    assert_eq!(store.get_transaction_after(0x204), Err(Error::NotFound));
}

#[test]
fn watermarks_and_needed_blobs() {
    let mut store = StorageManager::new("");
    store.update_watermark(1, 10);
    store.update_watermark(2, 20);
    store.update_watermark(1, 11);
    assert_eq!(store.get_watermark(1), Some(11));
    assert_eq!(store.get_watermark(2), Some(20));
    assert_eq!(store.get_watermark(3), None);
    store.add_needed_blob(1, 100);
    store.add_needed_blob(1, 101);
    store.add_needed_blob(1, 100);
    store.add_needed_blob(2, 100);
    assert_eq!(store.get_needed_blobs(1), vec![100, 101]);
    assert_eq!(store.get_needed_blobs(2), vec![100]);
    assert!(store.get_needed_blobs(3).is_empty());
    store.write_blob_at(100, vec![], None).unwrap();
    assert_eq!(store.get_needed_blobs(1), vec![101]);
    assert!(store.get_needed_blobs(2).is_empty());
}

// ---- forms ----

fn encode(form: &Form) -> Result<Vec<u8>, Error> {
    match form.id {
        Some(id) => Ok(format!("{}:{}:{}", id, form.team, form.match_number).into_bytes()),
        None => Err(Error::Encode),
    }
}

#[test]
fn forms_add_wants_a_live_template_and_a_valid_form() {
    let mut store = StorageManager::new("");
    let template = template();
    assert_eq!(store.forms_add(&template, full_form(), encode), Err(Error::NotFound));
    assert_eq!(
        store.forms_add_at(&template, &full_form(), 1, vec![], stamp(2)),
        Err(Error::NotFound)
    );
    store.add_at("T1".to_string(), DataType::Template, vec![], stamp(1)).unwrap();
    assert_eq!(store.forms_add(&template, Form::default(), encode), Err(Error::ValidationFailed));
    assert_eq!(
        store.forms_add_at(&template, &Form::default(), 1, vec![], stamp(2)),
        Err(Error::ValidationFailed)
    );
    assert_eq!(store.log().len(), 1);
    assert_eq!(store.forms_add_at(&template, &full_form(), 1, vec![9], stamp(2)), Ok(1));
    assert_eq!(
        store.log().entry(1),
        &txn(0x202, DataType::Form, Action::Add, 0x102, "00000000-0000-0000-0000-000000000001", 2_000)
    );
    assert_eq!(store.forms().len(), 1);
    assert_eq!(store.forms().entry(0).summary, full_form().summary("T1"));
    assert_eq!(store.forms().row(0), full_form().to_db_form(0x102, "T1".to_string()));
    assert_eq!(
        store.forms_add_at(&template, &full_form(), 2, vec![9], stamp(2)),
        Err(Error::Storage)
    );
    store.delete_at("T1", DataType::Template, stamp(3)).unwrap();
    assert_eq!(store.forms_add(&template, full_form(), encode), Err(Error::NotFound));
}

#[test]
fn forms_add_puts_the_identifier_into_the_form_before_it_is_encoded() {
    let mut store = store_with_template();
    let id = store.forms_add(&template(), full_form(), encode).unwrap();
    let key = uuid::Uuid::from_u128(id).to_string();
    assert_eq!(
        store.forms_get_serialized("T1".to_string(), key),
        Ok(format!("{}:10:1", id).into_bytes())
    );
    // random identifiers are of version 4
    assert_eq!(uuid::Uuid::from_u128(id).get_version_num(), 4);
    // what the encoder refuses is not stored
    let refuse = |_: &Form| -> Result<Vec<u8>, Error> { Err(Error::Encode) };
    assert_eq!(store.forms_add(&template(), full_form(), refuse), Err(Error::Encode));
    assert_eq!(store.log().len(), 2);
}

#[test]
fn forms_edit_checks_in_order() {
    let mut store = StorageManager::new("");
    let template = template();
    let key = "00000000-0000-0000-0000-000000000001".to_string();
    // the template is missing
    assert_eq!(store.forms_edit(&template, Form::default(), key.clone(), encode), Err(Error::NotFound));
    store.add_at("T1".to_string(), DataType::Template, vec![], stamp(1)).unwrap();
    // the form is invalid and missing: invalid comes first
    assert_eq!(
        store.forms_edit(&template, Form::default(), key.clone(), encode),
        Err(Error::ValidationFailed)
    );
    assert_eq!(
        store.forms_edit_at(&template, &Form::default(), key.clone(), vec![], stamp(2)),
        Err(Error::ValidationFailed)
    );
    // the form is missing
    assert_eq!(store.forms_edit(&template, full_form(), key.clone(), encode), Err(Error::NotFound));
    store.forms_add_at(&template, &full_form(), 1, vec![1], stamp(2)).unwrap();
    // a live form whose alt-key names no identifier
    store.add_at("odd".to_string(), DataType::Form, vec![], stamp(3)).unwrap();
    assert_eq!(store.forms_edit(&template, full_form(), "odd".to_string(), encode), Err(Error::Decode));
    assert_eq!(
        store.forms_edit_at(&template, &full_form(), "odd".to_string(), vec![], stamp(4)),
        Err(Error::Decode)
    );
    assert_eq!(store.log().len(), 3);
    // all is well
    let mut changed = full_form();
    changed.team = 11;
    assert_eq!(store.forms_edit(&template, changed, key.clone(), encode), Ok(()));
    assert_eq!(store.forms_get_serialized(String::new(), key.clone()), Ok(b"1:11:1".to_vec()));
    assert_eq!(store.log().entry(3).action, Action::Edit);
    assert_eq!(store.log().entry(3).alt_key, key);
    // one row for the form, that of its new version
    assert_eq!(store.forms().len(), 1);
    assert_eq!(store.forms().entry(0).summary.team, 11);
    assert_eq!(store.forms().entry(0).blob_id, store.log().entry(3).blob_id);
    // a deleted form is not edited
    store.forms_delete("T1".to_string(), key.clone()).unwrap();
    assert_eq!(store.forms_edit(&template, full_form(), key, encode), Err(Error::NotFound));
}

#[test]
fn a_failed_edit_leaves_no_transaction() {
    let mut store = store_with_template();
    let template = template();
    store.forms_add_at(&template, &full_form(), 1, vec![1], stamp(2)).unwrap();
    let key = "00000000-0000-0000-0000-000000000001".to_string();
    let mut wrong = full_form();
    wrong.add_field("cycles", FieldData::ShortText("seven".to_string()));
    assert_eq!(store.forms_edit(&template, wrong, key.clone(), encode), Err(Error::ValidationFailed));
    let mut missing = Form::default();
    missing.add_field("auto", FieldData::CheckBox(true));
    assert_eq!(store.forms_edit(&template, missing, key.clone(), encode), Err(Error::ValidationFailed));
    assert_eq!(store.log().len(), 2);
    assert_eq!(store.blobs().len(), 2);
    assert_eq!(store.forms_get_serialized(String::new(), key), Ok(vec![1]));
}

#[test]
fn forms_delete_is_idempotent() {
    let mut store = store_with_template();
    store.forms_add_at(&template(), &full_form(), 1, vec![1], stamp(2)).unwrap();
    let key = "00000000-0000-0000-0000-000000000001".to_string();
    assert_eq!(store.forms_delete("T1".to_string(), key.clone()), Ok(()));
    assert_eq!(store.log().len(), 3);
    assert_eq!(store.log().entry(2).action, Action::Delete);
    assert_eq!(store.log().entry(2).blob_id, 0x102);
    assert_eq!(store.forms().len(), 0);
    assert_eq!(store.forms_delete("T1".to_string(), key.clone()), Ok(()));
    assert_eq!(store.forms_delete_at(key.clone(), stamp(9)), Ok(()));
    assert_eq!(store.log().len(), 3);
    assert_eq!(store.forms_get_serialized("T1".to_string(), key.clone()), Err(Error::NotFound));
    assert!(store.forms_list("T1".to_string()).is_empty());
    assert!(store.forms_filter("T1".to_string(), no_filter()).is_empty());
    assert_eq!(store.forms_delete("T1".to_string(), "never".to_string()), Err(Error::NotFound));
    let taken = Stamp { transaction_id: 0x201, ..stamp(5) };
    store.forms_add_at(&template(), &full_form(), 2, vec![1], stamp(4)).unwrap();
    let other = "00000000-0000-0000-0000-000000000002".to_string();
    assert_eq!(store.forms_delete_at(other, taken), Err(Error::Storage));
}

#[test]
fn the_filter_finds_live_forms_by_every_attribute() {
    let mut store = store_with_template();
    let template = FormTemplate::new("T1", 2024);
    store.add_at("T2".to_string(), DataType::Template, vec![], stamp(9)).unwrap();
    let other = FormTemplate::new("T2", 2024);
    let mut n = 10;
    let mut file = |store: &mut StorageManager, t: &FormTemplate, team, match_number, event: &str, who: &str| {
        let mut form = Form::default();
        form.team = team;
        form.match_number = match_number;
        form.event_key = event.to_string();
        form.scouter = who.to_string();
        n += 1;
        store.forms_add_at(t, &form, n, vec![], stamp(n)).unwrap();
        0x100 + n
    };
    let a = file(&mut store, &template, 10, 1, "e", "s");
    let b = file(&mut store, &template, 10, 2, "e", "t");
    let c = file(&mut store, &template, 11, 1, "f", "s");
    let d = file(&mut store, &other, 10, 1, "e", "s");
    let t1 = || "T1".to_string();
    assert_eq!(store.forms_filter(t1(), no_filter()), vec![a, b, c]);
    assert_eq!(store.forms_filter("T2".to_string(), no_filter()), vec![d]);
    assert!(store.forms_filter("T3".to_string(), no_filter()).is_empty());
    assert_eq!(store.forms_filter(t1(), Filter { team: Some(10), ..no_filter() }), vec![a, b]);
    assert_eq!(store.forms_filter(t1(), Filter { match_number: Some(1), ..no_filter() }), vec![a, c]);
    assert_eq!(store.forms_filter(t1(), Filter { event: Some("f".to_string()), ..no_filter() }), vec![c]);
    assert_eq!(store.forms_filter(t1(), Filter { scouter: Some("s".to_string()), ..no_filter() }), vec![a, c]);
    assert_eq!(
        store.forms_filter(t1(), Filter { team: Some(11), match_number: Some(1), ..no_filter() }),
        vec![c]
    );
    assert!(store
        .forms_filter(t1(), Filter { team: Some(11), match_number: Some(2), ..no_filter() })
        .is_empty());
    // a deleted form is never found
    store.forms_delete(t1(), "00000000-0000-0000-0000-00000000000b".to_string()).unwrap();
    assert_eq!(store.forms_filter(t1(), no_filter()), vec![b, c]);
    assert_eq!(store.forms_list(t1()), vec![12, 13]);
    assert_eq!(store.forms_list("T2".to_string()), vec![14]);
    // the index can be rebuilt from the log and the blobs
    let rebuilt = store.rebuild_forms_index();
    assert_eq!(rebuilt.len(), store.forms().len());
    for i in 0..rebuilt.len() {
        assert_eq!(rebuilt.row(i), store.forms().row(i));
        assert_eq!(rebuilt.entry(i).form, store.forms().entry(i).form);
    }
    assert_eq!(rebuilt.filter(&t1(), &no_filter()), vec![b, c]);
}

#[test]
fn restoring_a_form_brings_its_row_back() {
    let mut store = store_with_template();
    let template = FormTemplate::new("T1", 2024);
    let mut form = Form::default();
    form.team = 10;
    store.forms_add_at(&template, &form, 1, vec![1], stamp(2)).unwrap();
    let key = "00000000-0000-0000-0000-000000000001".to_string();
    form.team = 11;
    store.forms_edit_at(&template, &form, key.clone(), vec![2], stamp(3)).unwrap();
    assert_eq!(store.forms_filter("T1".to_string(), Filter { team: Some(10), ..no_filter() }), vec![]);
    assert_eq!(store.forms_filter("T1".to_string(), Filter { team: Some(11), ..no_filter() }), vec![0x103]);
    // the first version is restored: the form is found by its old attributes again
    store.restore_transaction_at(0x202, 0x302, 4_000).unwrap();
    assert_eq!(store.forms_filter("T1".to_string(), Filter { team: Some(10), ..no_filter() }), vec![0x102]);
    assert_eq!(store.forms_filter("T1".to_string(), Filter { team: Some(11), ..no_filter() }), vec![]);
    assert_eq!(store.forms().len(), 1);
    store.forms_delete_at(key, stamp(5)).unwrap();
    assert_eq!(store.forms().len(), 0);
    // a deleted form's version is restored by an add
    store.restore_transaction_at(0x203, 0x303, 6_000).unwrap();
    assert_eq!(store.log().entry(5).action, Action::Add);
    assert_eq!(store.forms_filter("T1".to_string(), no_filter()), vec![0x103]);
}

#[test]
fn the_index_obeys_upsert_and_remove() {
    let mut index = FormsIndex::new();
    let summary = |team| FormSummary {
        template: "T1".to_string(),
        team,
        match_number: 1,
        event_key: "e".to_string(),
        scouter: "s".to_string(),
    };
    index.upsert("a".to_string(), 1, summary(1));
    index.upsert("b".to_string(), 2, summary(2));
    index.upsert("a".to_string(), 3, summary(3));
    assert_eq!(index.len(), 2);
    assert_eq!((index.entry(0).form.as_str(), index.entry(0).blob_id), ("b", 2));
    assert_eq!((index.entry(1).form.as_str(), index.entry(1).blob_id), ("a", 3));
    assert_eq!(index.list(&"T1".to_string()), vec!["b".to_string(), "a".to_string()]);
    assert!(index.list(&"T2".to_string()).is_empty());
    index.remove("c");
    assert_eq!(index.len(), 2);
    index.remove("b");
    assert_eq!(index.len(), 1);
    assert_eq!(index.filter(&"T1".to_string(), &no_filter()), vec![3]);
    assert!(index.contains_blob(3) && !index.contains_blob(2) && !index.contains_blob(1));
    index.upsert("d".to_string(), 3, summary(4));
    index.upsert("e".to_string(), 5, summary(5));
    index.remove_blob(9);
    assert_eq!(index.len(), 3);
    index.remove_blob(3);
    assert_eq!(index.len(), 1);
    assert_eq!(index.entry(0).form, "e");
    index.remove_blob(5);
    index.upsert("a".to_string(), 3, summary(3));
    let blobs = BlobStore::new();
    index.apply(&txn(1, DataType::Bytes, Action::Delete, 3, "a", 1), &blobs);
    assert_eq!(index.len(), 1);
    index.apply(&txn(1, DataType::Form, Action::Delete, 3, "a", 1), &blobs);
    assert_eq!(index.len(), 0);
}

#[test]
fn a_protected_template_with_live_forms_is_immutable() {
    let mut store = store_with_template();
    let template = FormTemplate::new("T1", 2024);
    store.forms_add_at(&template, &Form::default(), 1, vec![], stamp(2)).unwrap();
    assert!(!store.is_frozen(&"T1".to_string(), DataType::Template));
    assert_eq!(store.edit_at("T1".to_string(), DataType::Template, vec![1], stamp(3)), Ok(()));
    store.set_protect_templates(true);
    assert!(store.is_frozen(&"T1".to_string(), DataType::Template));
    assert!(!store.is_frozen(&"T1".to_string(), DataType::Schedule));
    assert_eq!(store.edit_at("T1".to_string(), DataType::Template, vec![2], stamp(4)), Err(Error::Immutable));
    let edit = Serialized { alt_key: "T1".to_string(), data_type: DataType::Template, payload: vec![2] };
    assert_eq!(store.storable_edit(edit.clone()), Err(Error::Immutable));
    assert_eq!(store.storable_get_serialized("T1".to_string(), DataType::Template), Ok(vec![1]));
    // without live forms the template can be edited again
    store.forms_delete(String::new(), "00000000-0000-0000-0000-000000000001".to_string()).unwrap();
    assert!(!store.is_frozen(&"T1".to_string(), DataType::Template));
    assert_eq!(store.storable_edit(edit), Ok(()));
    assert_eq!(store.storable_get_serialized("T1".to_string(), DataType::Template), Ok(vec![2]));
}

// ---- errors ----

#[test]
fn errors_describe_themselves() {
    let all = [
        (Error::NotFound, "not found"),
        (Error::Conflict, "exists already"),
        (Error::ValidationFailed, "form does not follow template"),
        (Error::Immutable, "immutable"),
        (Error::Decode, "payload could not be decoded"),
        (Error::Encode, "payload could not be encoded"),
        (Error::Storage, "storage failure"),
        (Error::AuthDenied, "not an approved peer"),
        (Error::Transient, "temporarily unavailable"),
    ];
    for (error, message) in all {
        assert_eq!(error.message(), message);
        assert_eq!(error.is_transient(), error == Error::Transient);
    }
}

// ---- schedules and settings ----

fn shift(scouter: &str, station: u8) -> Shift {
    Shift { scouter: scouter.to_string(), station, match_start: 1, match_end: 10 }
}

#[test]
fn shifts_are_added_edited_and_removed_by_position() {
    let mut schedule = Schedule::default();
    assert_eq!(schedule, Schedule { event: String::new(), shifts: vec![] });
    assert_eq!(schedule.remove_shift(0), Err(Error::NotFound));
    assert_eq!(schedule.edit_shift(0, shift("a", 1)), Err(Error::NotFound));
    assert_eq!(schedule.add_shift(shift("a", 1)), 0);
    assert_eq!(schedule.add_shift(shift("b", 2)), 1);
    assert_eq!(schedule.add_shift(shift("a", 3)), 2);
    assert_eq!(schedule.get_shifts("a"), vec![shift("a", 1), shift("a", 3)]);
    assert_eq!(schedule.get_shifts("b"), vec![shift("b", 2)]);
    assert!(schedule.get_shifts("c").is_empty());
    assert_eq!(schedule.edit_shift(1, shift("a", 4)), Ok(shift("b", 2)));
    assert_eq!(schedule.edit_shift(3, shift("a", 4)), Err(Error::NotFound));
    assert_eq!(schedule.edit_shift(u64::MAX, shift("a", 4)), Err(Error::NotFound));
    assert_eq!(schedule.shifts, vec![shift("a", 1), shift("a", 4), shift("a", 3)]);
    assert_eq!(schedule.remove_shift(0), Ok(shift("a", 1)));
    assert_eq!(schedule.remove_shift(2), Err(Error::NotFound));
    assert_eq!(schedule.shifts, vec![shift("a", 4), shift("a", 3)]);
    assert_eq!(Shift::default(), Shift { scouter: String::new(), station: 0, match_start: 0, match_end: 0 });
    assert_eq!(shift("a", 1).duplicate(), shift("a", 1));
}

#[test]
fn default_settings() {
    assert_eq!(DEFAULT_CACHE_CAPACITY, 1_073_741_824);
    let database = Database::default();
    assert_eq!((database.cache_capacity, database.path.as_str()), (1_073_741_824, "database"));
    let settings = Settings::default();
    assert_eq!(settings.template_directory, "templates");
    assert_eq!(settings.parent_address, None);
    assert_eq!(settings.database.path, "database");
    assert_eq!(settings.database.cache_capacity, 1_073_741_824);
}
